//! The value of an expression, evaluated from its leaves up.

use crate::cache::{cache_shaped, node_shape, ref_expr, ref_output, valid_ref, Level};
use crate::candidate::{candidate_of, Origin};
use crate::expr::{Expr, ExprRef};
use crate::num::Num;
use crate::operator::Operator;
use crate::params::{Config, OutputMap};
use crate::vector::{spec_constant, spec_vec_binary, spec_vec_unary};
use vstd::prelude::*;

verus! {

/// The value of a leaf: a constant at every position, or the vector of an input variable.
pub open spec fn leaf_value<M: OutputMap>(config: &Config<M>, e: Expr) -> Option<Seq<Num>> {
    if e.literal >= 0 {
        Some(spec_constant(e.literal, config.dim()))
    } else if e.spec_var_index() < config.inputs@.len() {
        Some(config.inputs@[e.spec_var_index()].vec@)
    } else {
        None
    }
}

/// The value of the child of a node.
pub open spec fn child_value<M: OutputMap>(
    cache: Seq<Level>,
    config: &Config<M>,
    child: Option<ExprRef>,
    bound: nat,
) -> Option<Seq<Num>>
    decreases bound, 0nat,
{
    match child {
        Some(c) => if c.len < bound && valid_ref(cache, c) {
            spec_eval(cache, config, ref_expr(cache, c), c.len as nat)
        } else {
            None
        },
        None => None,
    }
}

/// The value of an expression, by evaluating it from its leaves up; nothing where an
/// operator on the way is undefined. `bound` is a length above that of every child.
pub open spec fn spec_eval<M: OutputMap>(
    cache: Seq<Level>,
    config: &Config<M>,
    e: Expr,
    bound: nat,
) -> Option<Seq<Num>>
    decreases bound, 1nat,
{
    if e.op == Operator::Literal {
        leaf_value(config, e)
    } else if e.op == Operator::Parens {
        child_value(cache, config, e.right, bound)
    } else if e.op.spec_is_unary() {
        match child_value(cache, config, e.right, bound) {
            Some(v) => spec_vec_unary(e.op, v, config.semantics),
            None => None,
        }
    } else {
        match (child_value(cache, config, e.left, bound), child_value(cache, config, e.right, bound)) {
            (Some(a), Some(b)) => spec_vec_binary(e.op, a, b, config.semantics),
            _ => None,
        }
    }
}

/// The value of a node from the outputs stored for its children.
pub open spec fn node_value<M: OutputMap>(cache: Seq<Level>, config: &Config<M>, e: Expr) -> Option<
    Seq<Num>,
> {
    if e.op == Operator::Literal {
        leaf_value(config, e)
    } else if e.op == Operator::Parens {
        Some(ref_output(cache, e.right.unwrap()))
    } else if e.op.spec_is_unary() {
        spec_vec_unary(e.op, ref_output(cache, e.right.unwrap()), config.semantics)
    } else {
        spec_vec_binary(
            e.op,
            ref_output(cache, e.left.unwrap()),
            ref_output(cache, e.right.unwrap()),
            config.semantics,
        )
    }
}

/// The output stored with every expression is the value of its node.
#[verifier::opaque]
pub open spec fn outputs_hold<M: OutputMap>(cache: Seq<Level>, config: &Config<M>) -> bool {
    forall|at: ExprRef|
        valid_ref(cache, at) ==> node_value(cache, config, #[trigger] ref_expr(cache, at)) == Some(
            ref_output(cache, at),
        )
}

/// The output of a candidate is the value of its node.
pub proof fn lemma_candidate_value<M: OutputMap>(cache: Seq<Level>, config: &Config<M>, o: Origin)
    requires
        config.valid(),
        candidate_of(cache, config, o) is Some,
    ensures
        node_value(cache, config, candidate_of(cache, config, o).unwrap().expr) == Some(
            candidate_of(cache, config, o).unwrap().output,
        ),
{
    match o {
        Origin::Constant { value } => {
            if config.literals@.contains(value) {
                let i = choose|i: int| 0 <= i < config.literals@.len() && config.literals@[i] == value;
                assert(config.literals@[i] >= 0);
            }
        },
        _ => {},
    }
}

/// What the shape of a node says, spelled out.
pub proof fn lemma_shape_facts(cache: Seq<Level>, e: Expr, len: int)
    requires
        node_shape(cache, e, len),
    ensures
        e.op == Operator::Literal ==> e.left is None && e.right is None,
        e.op == Operator::Parens || e.op.spec_is_unary() ==> e.left is None && e.right is Some,
        e.op.spec_is_binary() ==> e.left is Some && e.right is Some,
        e.left is Some ==> valid_ref(cache, e.left.unwrap()) && e.left.unwrap().len < len,
        e.right is Some ==> valid_ref(cache, e.right.unwrap()) && e.right.unwrap().len < len,
{
    reveal(node_shape);
}

/// Evaluating a node whose children are cached expressions gives the value of the node.
pub proof fn lemma_node_eval<M: OutputMap>(cache: Seq<Level>, config: &Config<M>, e: Expr, bound: int)
    requires
        cache_shaped(cache),
        outputs_hold(cache, config),
        bound >= 0,
        node_shape(cache, e, bound),
    ensures
        spec_eval(cache, config, e, bound as nat) == node_value(cache, config, e),
    decreases bound, 0int,
{
    lemma_shape_facts(cache, e, bound);
    if e.op != Operator::Literal {
        assert(e.op == Operator::Parens || e.op.spec_is_unary() || e.op.spec_is_binary());
        lemma_cached_eval(cache, config, e.right.unwrap());
        assert(child_value(cache, config, e.right, bound as nat) == Some(
            ref_output(cache, e.right.unwrap()),
        ));
        if e.op.spec_is_binary() {
            lemma_cached_eval(cache, config, e.left.unwrap());
            assert(child_value(cache, config, e.left, bound as nat) == Some(
                ref_output(cache, e.left.unwrap()),
            ));
        }
    }
}

/// Every cached expression evaluates to the output stored with it.
pub proof fn lemma_cached_eval<M: OutputMap>(cache: Seq<Level>, config: &Config<M>, at: ExprRef)
    requires
        cache_shaped(cache),
        outputs_hold(cache, config),
        valid_ref(cache, at),
    ensures
        spec_eval(cache, config, ref_expr(cache, at), at.len as nat) == Some(ref_output(cache, at)),
    decreases at.len, 1int,
{
    assert(node_value(cache, config, ref_expr(cache, at)) == Some(ref_output(cache, at))) by {
        reveal(outputs_hold);
    }
    lemma_node_eval(cache, config, ref_expr(cache, at), at.len as int);
}

} // verus!
