//! What the expressions of a length are made from: the ways a candidate comes about, and
//! which candidates a level retains and which are reported.

use crate::cache::{
    ref_expr, ref_output, spec_ok_after_keyword, spec_ok_before_keyword, valid_ref, Level,
};
use crate::expr::{Expr, ExprRef};
use crate::num::Num;
use crate::operator::{Operator, PREC_PARENS, PREC_UNARY};
use crate::params::{Config, OutputMap};
use crate::vecmap::VecMap;
use crate::vector::{spec_constant, spec_vec_binary, spec_vec_unary};
use vstd::prelude::*;

verus! {

/// For each output seen at a short length, the best precedence class reached for it.
pub type Shorter = VecMap<u8>;

/// The number of decimal digits of a number that is not negative.
pub open spec fn spec_digits(k: int) -> nat
    decreases k,
{
    if k < 10 {
        1
    } else {
        1 + spec_digits(k / 10)
    }
}

/// A number that fits in 32 bits has at most ten decimal digits.
pub proof fn lemma_digits_bound(k: int)
    requires
        k <= i32::MAX,
    ensures
        1 <= spec_digits(k) <= 10,
{
    reveal_with_fuel(spec_digits, 11);
}

/// The number of decimal digits of a number that is not negative.
pub fn positive_integer_length(k: Num) -> (l: usize)
    ensures
        l == spec_digits(k as int),
        1 <= l <= 10,
{
    let mut rest: Num = k;
    let mut l: usize = 1;
    proof {
        lemma_digits_bound(k as int);
    }
    while rest >= 10
        invariant
            1 <= l,
            spec_digits(k as int) <= 10,
            l + spec_digits(rest as int) == 1 + spec_digits(k as int),
        decreases rest,
    {
        rest = rest / 10;
        l = l + 1;
    }
    l
}

/// How a candidate expression comes about.
pub enum Origin {
    /// A binary operator over two earlier expressions.
    Binary { l: ExprRef, r: ExprRef, op: Operator },
    /// A prefix operator over an earlier expression.
    Unary { r: ExprRef, op: Operator },
    /// An earlier expression in brackets.
    Parens { r: ExprRef },
    /// The input variable with this index.
    Variable { index: usize },
    /// This constant.
    Constant { value: Num },
}

/// An expression together with the vector it evaluates to.
pub struct Candidate {
    pub output: Seq<Num>,
    pub expr: Expr,
}

/// Which written form of the keyword `or` a pair of operands admits; every other operator
/// fits every pair.
pub open spec fn keyword_fits(cache: Seq<Level>, l: ExprRef, r: ExprRef, op: Operator) -> bool {
    match op {
        Operator::Or => spec_ok_before_keyword(cache, l) && spec_ok_after_keyword(cache, r),
        Operator::SpaceOr => !spec_ok_before_keyword(cache, l) && spec_ok_after_keyword(cache, r),
        Operator::OrSpace => spec_ok_before_keyword(cache, l) && !spec_ok_after_keyword(cache, r),
        _ => true,
    }
}

/// Whether a binary operator may be put between two earlier expressions: it is switched
/// on, the left operand binds at least as tightly as the operator's left bound, the right
/// operand strictly tighter than its right bound, the operands share no variable unless
/// that is allowed, and the written form fits.
pub open spec fn binary_admissible<M: OutputMap>(
    cache: Seq<Level>,
    config: &Config<M>,
    l: ExprRef,
    r: ExprRef,
    op: Operator,
) -> bool {
    &&& valid_ref(cache, l)
    &&& valid_ref(cache, r)
    &&& op.spec_is_binary()
    &&& config.ops.spec_enabled(op)
    &&& ref_expr(cache, l).op.spec_prec() >= op.spec_left_bound()
    &&& ref_expr(cache, r).op.spec_prec() > op.spec_right_bound()
    &&& (config.reuse_vars || ref_expr(cache, l).var_mask & ref_expr(cache, r).var_mask == 0)
    &&& keyword_fits(cache, l, r, op)
}

/// Whether a prefix operator may be put before an earlier expression.
pub open spec fn unary_admissible<M: OutputMap>(
    cache: Seq<Level>,
    config: &Config<M>,
    r: ExprRef,
    op: Operator,
) -> bool {
    &&& valid_ref(cache, r)
    &&& op.spec_is_unary()
    &&& config.ops.spec_enabled(op)
    &&& ref_expr(cache, r).op.spec_prec() >= PREC_UNARY
}

/// Whether an earlier expression gains from brackets.
pub open spec fn parens_admissible(cache: Seq<Level>, r: ExprRef) -> bool {
    valid_ref(cache, r) && ref_expr(cache, r).op.spec_prec() < PREC_PARENS
}

/// The candidate that comes about in a given way, if that way is open.
pub open spec fn candidate_of<M: OutputMap>(
    cache: Seq<Level>,
    config: &Config<M>,
    o: Origin,
) -> Option<Candidate> {
    match o {
        Origin::Binary { l, r, op } => {
            let out = spec_vec_binary(
                op,
                ref_output(cache, l),
                ref_output(cache, r),
                config.semantics,
            );
            if binary_admissible(cache, config, l, r, op) && out is Some {
                Some(
                    Candidate {
                        output: out.unwrap(),
                        expr: Expr::spec_bin(
                            l,
                            r,
                            op,
                            ref_expr(cache, l).var_mask | ref_expr(cache, r).var_mask,
                        ),
                    },
                )
            } else {
                None
            }
        },
        Origin::Unary { r, op } => {
            let out = spec_vec_unary(op, ref_output(cache, r), config.semantics);
            if unary_admissible(cache, config, r, op) && out is Some {
                Some(
                    Candidate {
                        output: out.unwrap(),
                        expr: Expr::spec_unary(ref_expr(cache, r), r, op),
                    },
                )
            } else {
                None
            }
        },
        Origin::Parens { r } => {
            if parens_admissible(cache, r) {
                Some(
                    Candidate {
                        output: ref_output(cache, r),
                        expr: Expr::spec_parens(ref_expr(cache, r), r),
                    },
                )
            } else {
                None
            }
        },
        Origin::Variable { index } => {
            if index < config.inputs@.len() {
                Some(
                    Candidate {
                        output: config.inputs@[index as int].vec@,
                        expr: Expr::spec_variable(index),
                    },
                )
            } else {
                None
            }
        },
        Origin::Constant { value } => {
            if config.is_literal(value) {
                Some(
                    Candidate {
                        output: spec_constant(value, config.dim()),
                        expr: Expr::spec_literal(value),
                    },
                )
            } else {
                None
            }
        },
    }
}

/// The length of the text of a candidate that comes about in a given way.
pub open spec fn origin_len(o: Origin) -> int {
    match o {
        Origin::Binary { l, r, op } => l.len + r.len + op.spec_width(),
        Origin::Unary { r, op } => r.len + 1,
        Origin::Parens { r } => r.len + 2,
        Origin::Variable { index } => 1,
        Origin::Constant { value } => spec_digits(value as int) as int,
    }
}

/// A candidate is pruned where a short expression already yields its output with a
/// precedence class that is no worse.
pub open spec fn pruned(shorter: &Shorter, c: Candidate) -> bool {
    shorter.contains(c.output) && shorter.value_of(c.output) >= c.expr.op.spec_prec()
}

/// The candidates of a length that go into its level: composed ones unless they match the
/// goal or are pruned, bracketed ones and leaves always.
pub open spec fn retained<M: OutputMap>(
    cache: Seq<Level>,
    shorter: &Shorter,
    config: &Config<M>,
    n: int,
    o: Origin,
) -> bool {
    let c = candidate_of(cache, config, o);
    &&& c is Some
    &&& origin_len(o) == n
    &&& (o is Binary || o is Unary) ==> !config.is_goal(c.unwrap().output) && !pruned(
        shorter,
        c.unwrap(),
    )
}

/// The candidates of a length that are solutions: composed ones and leaves whose output,
/// once mapped, is the goal.
pub open spec fn reported<M: OutputMap>(
    cache: Seq<Level>,
    config: &Config<M>,
    n: int,
    o: Origin,
) -> bool {
    let c = candidate_of(cache, config, o);
    &&& c is Some
    &&& origin_len(o) == n
    &&& !(o is Parens)
    &&& config.is_goal(c.unwrap().output)
}

/// A level covers a candidate where it holds the candidate's output with a precedence code
/// at least as great as the candidate's.
pub open spec fn covers(level: &Level, c: Candidate) -> bool {
    level.contains(c.output) && level.value_of(c.output).op.spec_code() >= c.expr.op.spec_code()
}

/// Every entry of the level is a candidate of the length that goes into the level.
#[verifier::opaque]
pub open spec fn level_sound<M: OutputMap>(
    level: &Level,
    cache: Seq<Level>,
    shorter: &Shorter,
    config: &Config<M>,
    n: int,
) -> bool {
    forall|i: int|
        0 <= i < level.keys().len() ==> exists|o: Origin|
            retained(cache, shorter, config, n, o) && #[trigger] candidate_of(cache, config, o)
                == Some(Candidate { output: level.keys()[i], expr: #[trigger] level.vals()[i] })
}

/// Every listed solution is a candidate of the length whose output matches the goal.
#[verifier::opaque]
pub open spec fn solutions_sound<M: OutputMap>(
    solutions: Seq<Expr>,
    cache: Seq<Level>,
    config: &Config<M>,
    n: int,
) -> bool {
    forall|i: int|
        0 <= i < solutions.len() ==> exists|o: Origin|
            reported(cache, config, n, o) && (#[trigger] candidate_of(cache, config, o)).unwrap().expr
                == #[trigger] solutions[i]
}

} // verus!
