//! Shifts and powers, defined on a bounded range of right operands.

use crate::num::{lemma_wrap32_absorbs, lemma_wrap32_basics, mul_wrap, wrap32, Num};
use vstd::arithmetic::div_mod::{lemma_fundamental_div_mod, lemma_fundamental_div_mod_converse};
use vstd::arithmetic::power::pow;
use vstd::arithmetic::power2::{lemma2_to64, lemma_pow2_pos, lemma_pow2_strictly_increases, pow2};
use vstd::bits::lemma_u64_shl_is_mul;
use vstd::prelude::*;

verus! {

/// The greatest shift amount for which a shift is defined.
pub const MAX_SHIFT: Num = 31;

/// The greatest exponent for which a power is defined.
pub const MAX_EXPONENT: Num = 6;

/// A shift is defined for amounts from zero to [`MAX_SHIFT`].
pub open spec fn shift_defined(b: Num) -> bool {
    0 <= b <= MAX_SHIFT
}

/// A power is defined for exponents from zero to [`MAX_EXPONENT`].
pub open spec fn exp_defined(b: Num) -> bool {
    0 <= b <= MAX_EXPONENT
}

/// Shifting left multiplies by a power of two and keeps the low bits.
pub open spec fn spec_shl(a: Num, b: Num) -> int {
    wrap32(a * pow2(b as nat))
}

/// Shifting right divides by a power of two and rounds towards negative infinity.
pub open spec fn spec_shr(a: Num, b: Num) -> int {
    a as int / pow2(b as nat) as int
}

/// The power of a value, stored with wraparound.
pub open spec fn spec_pow(a: Num, b: Num) -> int {
    wrap32(pow(a as int, b as nat))
}

/// Two to the power of a defined shift amount.
fn power_of_two(b: Num) -> (p: i64)
    requires
        shift_defined(b),
    ensures
        p == pow2(b as nat),
        1 <= p <= 0x8000_0000,
{
    let s: u64 = b as u64;
    proof {
        lemma2_to64();
        lemma_pow2_pos(b as nat);
        if b < 31 {
            lemma_pow2_strictly_increases(b as nat, 31);
        }
        lemma_u64_shl_is_mul(1, s);
    }
    let p: u64 = 1u64 << s;
    p as i64
}

/// Left shift by an amount for which it is defined.
pub fn shift_left(a: Num, b: Num) -> (r: Num)
    requires
        shift_defined(b),
    ensures
        r == spec_shl(a, b),
{
    let p: i64 = power_of_two(b);
    let p32: Num = if p == 0x8000_0000 {
        i32::MIN
    } else {
        p as i32
    };
    proof {
        lemma_wrap32_basics(p as int);
        if p == 0x8000_0000 {
            lemma_fundamental_div_mod_converse(0x8000_0000, 0x1_0000_0000, 0, 0x8000_0000);
        }
        assert(p32 == wrap32(p as int));
        lemma_wrap32_absorbs(p as int, a as int);
        lemma_wrap32_basics(a as int);
        assert(wrap32(p32 * a) == wrap32(p * a));
        assert(p * a == a * p) by (nonlinear_arith);
        assert(p32 * a == a * p32) by (nonlinear_arith);
    }
    mul_wrap(a, p32)
}

/// Right shift by an amount for which it is defined; the sign is kept.
pub fn shift_right(a: Num, b: Num) -> (r: Num)
    requires
        shift_defined(b),
    ensures
        r == spec_shr(a, b),
{
    let p: i64 = power_of_two(b);
    let wide: i64 = a as i64;
    proof {
        lemma_fundamental_div_mod(wide as int, p as int);
        let q = wide as int / p as int;
        let m = wide as int % p as int;
        assert(i32::MIN <= q <= i32::MAX) by (nonlinear_arith)
            requires
                wide == p * q + m,
                0 <= m < p,
                1 <= p,
                i32::MIN <= wide <= i32::MAX,
        ;
    }
    match wide.checked_div_euclid(p) {
        Some(q) => q as i32,
        None => 0,
    }
}

/// Power with an exponent for which it is defined.
pub fn power(a: Num, b: Num) -> (r: Num)
    requires
        exp_defined(b),
    ensures
        r == spec_pow(a, b),
{
    let mut acc: Num = 1;
    let mut i: Num = 0;
    proof {
        reveal(pow);
        lemma_wrap32_basics(1);
    }
    while i < b
        invariant
            0 <= i <= b <= MAX_EXPONENT,
            acc == wrap32(pow(a as int, i as nat)),
        decreases b - i,
    {
        proof {
            reveal(pow);
            let prev = pow(a as int, i as nat);
            assert(pow(a as int, (i + 1) as nat) == a * prev);
            lemma_wrap32_absorbs(prev, a as int);
            lemma_wrap32_basics(a as int);
            assert(prev * a == a * prev) by (nonlinear_arith);
        }
        acc = mul_wrap(acc, a);
        i = i + 1;
    }
    acc
}

} // verus!
