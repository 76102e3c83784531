//! The levels built so far, and how expressions in them are reached and read.

use crate::expr::{Expr, ExprRef};
use crate::num::Num;
use crate::operator::Operator;
use crate::vecmap::VecMap;
use crate::vector::Vector;
use vstd::prelude::*;

verus! {

/// The expressions of one length: for each output the one expression kept for it.
pub type Level = VecMap<Expr>;

/// The levels built so far, indexed by length. Level zero is empty.
pub type Cache = Vec<Level>;

/// True where a reference names an expression that a level holds.
pub open spec fn valid_ref(cache: Seq<Level>, at: ExprRef) -> bool {
    at.len < cache.len() && at.idx < cache[at.len as int].keys().len()
}

/// The expression a reference names.
pub open spec fn ref_expr(cache: Seq<Level>, at: ExprRef) -> Expr {
    cache[at.len as int].vals()[at.idx as int]
}

/// The output of the expression a reference names.
pub open spec fn ref_output(cache: Seq<Level>, at: ExprRef) -> Seq<Num> {
    cache[at.len as int].keys()[at.idx as int]
}

/// The children of the node fit its operator and live in levels below the node's own.
#[verifier::opaque]
pub open spec fn node_shape(cache: Seq<Level>, e: Expr, len: int) -> bool {
    &&& e.op == Operator::Literal ==> e.left is None && e.right is None
    &&& e.op == Operator::Parens || e.op.spec_is_unary() ==> e.left is None && e.right is Some
    &&& e.op.spec_is_binary() ==> e.left is Some && e.right is Some
    &&& e.left is Some ==> valid_ref(cache, e.left.unwrap()) && e.left.unwrap().len < len
    &&& e.right is Some ==> valid_ref(cache, e.right.unwrap()) && e.right.unwrap().len < len
}

/// Every level is a well-formed map, level zero is empty, and every node has the shape its
/// operator asks for.
pub open spec fn cache_shaped(cache: Seq<Level>) -> bool {
    &&& cache.len() > 0
    &&& cache[0].keys().len() == 0
    &&& forall|n: int| 0 <= n < cache.len() ==> (#[trigger] cache[n]).wf()
    &&& forall|at: ExprRef| #[trigger]
        valid_ref(cache, at) ==> node_shape(cache, ref_expr(cache, at), at.len as int)
}

/// In a shaped cache the children of a node are there, and they are shorter than the node.
pub proof fn lemma_children(cache: Seq<Level>, at: ExprRef)
    requires
        cache_shaped(cache),
        valid_ref(cache, at),
    ensures
        ref_expr(cache, at).left is Some ==> valid_ref(cache, ref_expr(cache, at).left.unwrap())
            && ref_expr(cache, at).left.unwrap().len < at.len,
        ref_expr(cache, at).right is Some ==> valid_ref(cache, ref_expr(cache, at).right.unwrap())
            && ref_expr(cache, at).right.unwrap().len < at.len,
{
    reveal(node_shape);
}

/// Whether the keyword `or` may follow the expression with no space between: the text
/// must end in a digit or a closing bracket.
pub open spec fn spec_ok_before_keyword(cache: Seq<Level>, at: ExprRef) -> bool
    decreases at.len,
{
    if !valid_ref(cache, at) {
        false
    } else {
        let e = ref_expr(cache, at);
        match e.right {
            None => e.literal >= 0,
            Some(r) => e.op == Operator::Parens || (r.len < at.len && spec_ok_before_keyword(
                cache,
                r,
            )),
        }
    }
}

/// Whether the expression may follow the keyword `or` with no space between: the text
/// must begin with a prefix operator or an opening bracket.
pub open spec fn spec_ok_after_keyword(cache: Seq<Level>, at: ExprRef) -> bool
    decreases at.len,
{
    if !valid_ref(cache, at) {
        false
    } else {
        let e = ref_expr(cache, at);
        match e.left {
            None => e.op != Operator::Literal,
            Some(l) => l.len < at.len && spec_ok_after_keyword(cache, l),
        }
    }
}

/// The expression a reference names.
pub fn expr_at(cache: &Cache, at: ExprRef) -> (e: Expr)
    requires
        cache_shaped(cache@),
        valid_ref(cache@, at),
    ensures
        e == ref_expr(cache@, at),
{
    cache[at.len].val_at(at.idx)
}

/// The output of the expression a reference names.
pub fn output_at(cache: &Cache, at: ExprRef) -> (v: &Vector)
    requires
        cache_shaped(cache@),
        valid_ref(cache@, at),
    ensures
        v@ == ref_output(cache@, at),
{
    cache[at.len].key_at(at.idx)
}

/// Whether the keyword `or` may follow the expression with no space between.
pub fn ok_before_keyword(cache: &Cache, at: ExprRef) -> (b: bool)
    requires
        cache_shaped(cache@),
        valid_ref(cache@, at),
    ensures
        b == spec_ok_before_keyword(cache@, at),
{
    let mut cur = at;
    loop
        invariant
            cache_shaped(cache@),
            valid_ref(cache@, cur),
            spec_ok_before_keyword(cache@, cur) == spec_ok_before_keyword(cache@, at),
        decreases cur.len,
    {
        let e = expr_at(cache, cur);
        proof {
            lemma_children(cache@, cur);
        }
        match e.right {
            None => {
                return e.literal >= 0;
            },
            Some(r) => {
                if e.op == Operator::Parens {
                    return true;
                }
                cur = r;
            },
        }
    }
}

/// Whether the expression may follow the keyword `or` with no space between.
pub fn ok_after_keyword(cache: &Cache, at: ExprRef) -> (b: bool)
    requires
        cache_shaped(cache@),
        valid_ref(cache@, at),
    ensures
        b == spec_ok_after_keyword(cache@, at),
{
    let mut cur = at;
    loop
        invariant
            cache_shaped(cache@),
            valid_ref(cache@, cur),
            spec_ok_after_keyword(cache@, cur) == spec_ok_after_keyword(cache@, at),
        decreases cur.len,
    {
        let e = expr_at(cache, cur);
        proof {
            lemma_children(cache@, cur);
        }
        match e.left {
            None => {
                return e.op != Operator::Literal;
            },
            Some(l) => {
                cur = l;
            },
        }
    }
}

} // verus!
