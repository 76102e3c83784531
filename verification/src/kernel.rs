//! The operators on single values, with the rules for undefined results.

use crate::divmod::{div_mod, div_mod_defined, spec_div, spec_mod};
use crate::gcd::{gcd, magnitude, spec_gcd};
use crate::num::{
    add_wrap, bit_and, bit_not, bit_or, bit_xor, keyword_or, less_equal, less_than, mul_wrap,
    neg_wrap, sub_wrap, wrap32, Num,
};
use crate::operator::Operator;
use crate::power::{
    exp_defined, power, shift_defined, shift_left, shift_right, spec_pow, spec_shl, spec_shr,
    MAX_EXPONENT, MAX_SHIFT,
};
use vstd::prelude::*;

verus! {

/// How the partial operators behave: the rounding of division, and the value that stands
/// for an undefined result where one is configured.
#[derive(Clone, Copy, PartialEq, Eq, Structural, Debug)]
pub struct Semantics {
    /// Division and remainder round towards negative infinity rather than towards zero.
    pub floor_mod: bool,
    /// Where set, undefined results become this value, and it absorbs every operator.
    pub error_value: Option<Num>,
}

/// What a binary operator yields on two values where it is defined, before any error value
/// is taken into account.
pub open spec fn spec_raw_binary(op: Operator, a: Num, b: Num, floor: bool) -> Option<Num> {
    match op {
        Operator::Or | Operator::SpaceOr | Operator::OrSpace => Some(if a != 0 { a } else { b }),
        Operator::Lt => Some(if a < b { 1 } else { 0 }),
        Operator::Le => Some(if a <= b { 1 } else { 0 }),
        Operator::BitOr => Some(a | b),
        Operator::BitXor => Some(a ^ b),
        Operator::BitAnd => Some(a & b),
        Operator::BitShl => if shift_defined(b) {
            Some(spec_shl(a, b) as Num)
        } else {
            None
        },
        Operator::BitShr => if shift_defined(b) {
            Some(spec_shr(a, b) as Num)
        } else {
            None
        },
        Operator::Add => Some(wrap32(a + b) as Num),
        Operator::Sub => Some(wrap32(a - b) as Num),
        Operator::Mul => Some(wrap32(a * b) as Num),
        Operator::Mod => if div_mod_defined(a, b) {
            Some(spec_mod(a, b, floor) as Num)
        } else {
            None
        },
        Operator::Div1 | Operator::Div2 => if div_mod_defined(a, b) {
            Some(spec_div(a, b, floor) as Num)
        } else {
            None
        },
        Operator::Gcd => Some(
            wrap32(spec_gcd(magnitude(a as int), magnitude(b as int)) as int) as Num,
        ),
        Operator::Exp => if exp_defined(b) {
            Some(spec_pow(a, b) as Num)
        } else {
            None
        },
        Operator::Neg | Operator::BitNeg | Operator::Parens | Operator::Literal => None,
    }
}

/// What a binary operator yields on two values: nothing where it is undefined and no error
/// value is configured; with an error value, that value wherever an operand already is it
/// or the operator is undefined.
pub open spec fn spec_binary_op(op: Operator, a: Num, b: Num, sem: Semantics) -> Option<Num> {
    if !op.spec_is_binary() {
        None
    } else if sem.error_value is Some && (a == sem.error_value.unwrap() || b
        == sem.error_value.unwrap()) {
        sem.error_value
    } else {
        match spec_raw_binary(op, a, b, sem.floor_mod) {
            Some(v) => Some(v),
            None => sem.error_value,
        }
    }
}

/// What a unary operator yields on a value; a configured error value is passed through.
pub open spec fn spec_unary_op(op: Operator, a: Num, sem: Semantics) -> Option<Num> {
    if !op.spec_is_unary() {
        None
    } else if sem.error_value == Some(a) {
        Some(a)
    } else if op == Operator::Neg {
        Some(wrap32(-a) as Num)
    } else {
        Some((-1 - a) as Num)
    }
}

fn raw_binary_op(op: Operator, a: Num, b: Num, floor: bool) -> (r: Option<Num>)
    ensures
        r == spec_raw_binary(op, a, b, floor),
{
    match op {
        Operator::Or | Operator::SpaceOr | Operator::OrSpace => Some(keyword_or(a, b)),
        Operator::Lt => Some(less_than(a, b)),
        Operator::Le => Some(less_equal(a, b)),
        Operator::BitOr => Some(bit_or(a, b)),
        Operator::BitXor => Some(bit_xor(a, b)),
        Operator::BitAnd => Some(bit_and(a, b)),
        Operator::BitShl => if 0 <= b && b <= MAX_SHIFT {
            Some(shift_left(a, b))
        } else {
            None
        },
        Operator::BitShr => if 0 <= b && b <= MAX_SHIFT {
            Some(shift_right(a, b))
        } else {
            None
        },
        Operator::Add => Some(add_wrap(a, b)),
        Operator::Sub => Some(sub_wrap(a, b)),
        Operator::Mul => Some(mul_wrap(a, b)),
        Operator::Mod => match div_mod(a, b, floor) {
            Some(qm) => Some(qm.1),
            None => None,
        },
        Operator::Div1 | Operator::Div2 => match div_mod(a, b, floor) {
            Some(qm) => Some(qm.0),
            None => None,
        },
        Operator::Gcd => Some(gcd(a, b)),
        Operator::Exp => if 0 <= b && b <= MAX_EXPONENT {
            Some(power(a, b))
        } else {
            None
        },
        Operator::Neg | Operator::BitNeg | Operator::Parens | Operator::Literal => None,
    }
}

/// Applies a binary operator to two values.
pub fn binary_op(op: Operator, a: Num, b: Num, sem: &Semantics) -> (r: Option<Num>)
    ensures
        r == spec_binary_op(op, a, b, *sem),
{
    if !op.is_binary() {
        return None;
    }
    if let Some(e) = sem.error_value {
        if a == e || b == e {
            return Some(e);
        }
    }
    match raw_binary_op(op, a, b, sem.floor_mod) {
        Some(v) => Some(v),
        None => sem.error_value,
    }
}

/// Applies a unary operator to a value.
pub fn unary_op(op: Operator, a: Num, sem: &Semantics) -> (r: Option<Num>)
    ensures
        r == spec_unary_op(op, a, *sem),
{
    if !op.is_unary() {
        return None;
    }
    if let Some(e) = sem.error_value {
        if a == e {
            return Some(e);
        }
    }
    if op == Operator::Neg {
        Some(neg_wrap(a))
    } else {
        Some(bit_not(a))
    }
}

} // verus!
