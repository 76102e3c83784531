//! Division and remainder on 32-bit values, rounded towards zero or towards negative
//! infinity.

use crate::num::Num;
use vstd::arithmetic::div_mod::{lemma_fundamental_div_mod, lemma_fundamental_div_mod_converse};
use vstd::prelude::*;

verus! {

/// Quotient rounded towards zero.
pub open spec fn trunc_div(a: int, b: int) -> int {
    if a >= 0 {
        if b > 0 {
            a / b
        } else {
            -(a / (-b))
        }
    } else {
        if b > 0 {
            -((-a) / b)
        } else {
            (-a) / (-b)
        }
    }
}

/// Remainder that goes with [`trunc_div`]; it has the sign of the dividend.
pub open spec fn trunc_mod(a: int, b: int) -> int {
    a - b * trunc_div(a, b)
}

/// Quotient rounded towards negative infinity.
pub open spec fn floor_div(a: int, b: int) -> int {
    if b > 0 {
        a / b
    } else {
        (-a) / (-b)
    }
}

/// Remainder that goes with [`floor_div`]; it has the sign of the divisor.
pub open spec fn floor_mod(a: int, b: int) -> int {
    a - b * floor_div(a, b)
}

/// Division is defined unless the divisor is zero or the quotient leaves the signed range.
pub open spec fn div_mod_defined(a: Num, b: Num) -> bool {
    b != 0 && !(a == i32::MIN && b == -1)
}

/// The quotient under the chosen rounding.
pub open spec fn spec_div(a: Num, b: Num, floor: bool) -> int {
    if floor {
        floor_div(a as int, b as int)
    } else {
        trunc_div(a as int, b as int)
    }
}

/// The remainder under the chosen rounding.
pub open spec fn spec_mod(a: Num, b: Num, floor: bool) -> int {
    if floor {
        floor_mod(a as int, b as int)
    } else {
        trunc_mod(a as int, b as int)
    }
}

/// The truncating quotient and remainder rebuild the dividend; the remainder is smaller
/// than the divisor in magnitude and never has the sign opposite to the dividend's.
pub proof fn lemma_trunc_div_mod(a: int, b: int)
    requires
        b != 0,
    ensures
        a == b * trunc_div(a, b) + trunc_mod(a, b),
        a >= 0 ==> 0 <= trunc_mod(a, b),
        a <= 0 ==> trunc_mod(a, b) <= 0,
        b > 0 ==> -b < trunc_mod(a, b) < b,
        b < 0 ==> b < trunc_mod(a, b) < -b,
{
    let ua = if a >= 0 { a } else { -a };
    let ub = if b > 0 { b } else { -b };
    lemma_fundamental_div_mod(ua, ub);
    let q = ua / ub;
    let r = ua % ub;
    assert(ua == ub * q + r);
    if a >= 0 {
        if b > 0 {
        } else {
            assert(b * (-q) == ub * q) by (nonlinear_arith)
                requires
                    ub == -b,
            ;
        }
    } else {
        if b > 0 {
            assert(b * (-q) == -(ub * q)) by (nonlinear_arith)
                requires
                    ub == b,
            ;
        } else {
            assert(b * q == -(ub * q)) by (nonlinear_arith)
                requires
                    ub == -b,
            ;
        }
    }
}

/// The flooring quotient and remainder rebuild the dividend; the remainder is smaller than
/// the divisor in magnitude and never has the sign opposite to the divisor's.
pub proof fn lemma_floor_div_mod(a: int, b: int)
    requires
        b != 0,
    ensures
        a == b * floor_div(a, b) + floor_mod(a, b),
        b > 0 ==> 0 <= floor_mod(a, b) < b,
        b < 0 ==> b < floor_mod(a, b) <= 0,
{
    if b > 0 {
        lemma_fundamental_div_mod(a, b);
    } else {
        lemma_fundamental_div_mod(-a, -b);
        let q = (-a) / (-b);
        assert(b * q == -((-b) * q)) by (nonlinear_arith);
    }
}

/// Any quotient and remainder that rebuild the dividend, with the remainder on the
/// divisor's side of zero and smaller in magnitude, are the flooring ones.
pub proof fn lemma_floor_div_mod_unique(a: int, b: int, q: int, r: int)
    requires
        b != 0,
        a == b * q + r,
        b > 0 ==> 0 <= r < b,
        b < 0 ==> b < r <= 0,
    ensures
        q == floor_div(a, b),
        r == floor_mod(a, b),
{
    if b > 0 {
        lemma_fundamental_div_mod_converse(a, b, q, r);
    } else {
        assert(-a == (-b) * q + (-r)) by (nonlinear_arith)
            requires
                a == b * q + r,
        ;
        lemma_fundamental_div_mod_converse(-a, -b, q, -r);
    }
}

/// Quotient and remainder in one pass, rounded towards zero or, with `floor`, towards
/// negative infinity; nothing where the division is not defined.
pub fn div_mod(a: Num, b: Num, floor: bool) -> (r: Option<(Num, Num)>)
    ensures
        r is Some <==> div_mod_defined(a, b),
        r is Some ==> r.unwrap().0 as int == spec_div(a, b, floor),
        r is Some ==> r.unwrap().1 as int == spec_mod(a, b, floor),
{
    let q = match a.checked_div(b) {
        Some(q) => q,
        None => {
            proof {
                if b != 0 {
                    lemma_trunc_div_mod(a as int, b as int);
                    lemma_trunc_quotient_fits(a, b);
                }
            }
            return None;
        },
    };
    let m = match a.checked_rem(b) {
        Some(m) => m,
        None => { return None; },
    };
    proof {
        lemma_trunc_div_mod(a as int, b as int);
        lemma_trunc_quotient_fits(a, b);
        lemma_checked_forms(a as int, b as int);
        assert(q == trunc_div(a as int, b as int));
        assert(m == trunc_mod(a as int, b as int));
    }
    if floor && m != 0 && ((m < 0) != (b < 0)) {
        proof {
            let ai = a as int;
            let bi = b as int;
            assert(ai == bi * (q - 1) + (m + bi)) by (nonlinear_arith)
                requires
                    ai == bi * q + m,
            ;
            lemma_floor_div_mod_unique(ai, bi, q - 1, m + bi);
            lemma_floor_quotient_fits(a, b);
        }
        Some((q - 1, m + b))
    } else {
        proof {
            if floor {
                lemma_floor_div_mod_unique(a as int, b as int, q as int, m as int);
            }
        }
        Some((q, m))
    }
}

/// Where division is defined, the truncating quotient fits the signed range.
pub proof fn lemma_trunc_quotient_fits(a: Num, b: Num)
    requires
        b != 0,
    ensures
        div_mod_defined(a, b) ==> i32::MIN <= trunc_div(a as int, b as int) <= i32::MAX,
        !div_mod_defined(a, b) ==> trunc_div(a as int, b as int) == 0x8000_0000,
{
    let ai = a as int;
    let bi = b as int;
    let q = trunc_div(ai, bi);
    lemma_trunc_div_mod(ai, bi);
    let m = trunc_mod(ai, bi);
    if !div_mod_defined(a, b) {
        assert(0x8000_0000int / 1 == 0x8000_0000int);
    } else {
        assert(q <= i32::MAX && q >= i32::MIN) by (nonlinear_arith)
            requires
                ai == bi * q + m,
                bi != 0,
                i32::MIN <= ai <= i32::MAX,
                i32::MIN <= bi <= i32::MAX,
                !(ai == i32::MIN && bi == -1),
                ai >= 0 ==> 0 <= m,
                ai <= 0 ==> m <= 0,
                bi > 0 ==> -bi < m < bi,
                bi < 0 ==> bi < m < -bi,
        ;
    }
}

/// Where division is defined, the flooring quotient fits the signed range.
pub proof fn lemma_floor_quotient_fits(a: Num, b: Num)
    requires
        div_mod_defined(a, b),
    ensures
        i32::MIN <= floor_div(a as int, b as int) <= i32::MAX,
{
    let ai = a as int;
    let bi = b as int;
    let q = floor_div(ai, bi);
    lemma_floor_div_mod(ai, bi);
    let m = floor_mod(ai, bi);
    assert(q <= i32::MAX && q >= i32::MIN) by (nonlinear_arith)
        requires
            ai == bi * q + m,
            bi != 0,
            i32::MIN <= ai <= i32::MAX,
            i32::MIN <= bi <= i32::MAX,
            !(ai == i32::MIN && bi == -1),
            bi > 0 ==> 0 <= m < bi,
            bi < 0 ==> bi < m <= 0,
    ;
}

/// The case analysis by which the standard library states its checked division and
/// remainder gives the truncating quotient and remainder.
proof fn lemma_checked_forms(x: int, d: int)
    requires
        d != 0,
    ensures
        trunc_div(x, d) == (if x == 0 {
            0
        } else if x > 0 && d > 0 {
            x / d
        } else if x < 0 && d < 0 {
            ((x * -1) / (d * -1))
        } else if x < 0 {
            ((x * -1) / d) * -1
        } else {
            (x / (d * -1)) * -1
        }),
        trunc_mod(x, d) == (if x == 0 {
            0
        } else if x > 0 && d > 0 {
            x % d
        } else if x < 0 && d < 0 {
            ((x * -1) % (d * -1)) * -1
        } else if x < 0 {
            ((x * -1) % d) * -1
        } else {
            x % (d * -1)
        }),
{
    let ux = if x >= 0 { x } else { -x };
    let ud = if d > 0 { d } else { -d };
    lemma_fundamental_div_mod(ux, ud);
    lemma_trunc_div_mod(x, d);
    let q = ux / ud;
    if x == 0 {
        lemma_fundamental_div_mod_converse(0, ud, 0, 0);
    }
    assert(d * (-q) == -(d * q)) by (nonlinear_arith);
    assert((-d) * q == -(d * q)) by (nonlinear_arith);
}

} // verus!
