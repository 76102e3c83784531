//! The greatest common divisor.

use crate::num::{lemma_wrap32_basics, wrap32, Num};
use vstd::arithmetic::div_mod::{lemma_fundamental_div_mod, lemma_fundamental_div_mod_converse};
use vstd::prelude::*;

verus! {

/// The magnitude of an integer.
pub open spec fn magnitude(x: int) -> nat {
    if x < 0 {
        (-x) as nat
    } else {
        x as nat
    }
}

/// The product of two naturals.
pub open spec fn times(d: nat, k: nat) -> nat {
    d * k
}

/// `d` divides `n`: some multiple of `d` is `n`.
pub open spec fn divides(d: nat, n: nat) -> bool {
    exists|k: nat| n == #[trigger] times(d, k)
}

/// The greatest common divisor of two naturals, by Euclid's recursion; of zero and zero it
/// is zero.
pub open spec fn spec_gcd(a: nat, b: nat) -> nat
    decreases b,
{
    if b == 0 {
        a
    } else {
        spec_gcd(b, a % b)
    }
}

/// The greatest common divisor divides both numbers.
pub proof fn lemma_gcd_divides(a: nat, b: nat)
    ensures
        divides(spec_gcd(a, b), a),
        divides(spec_gcd(a, b), b),
    decreases b,
{
    let g = spec_gcd(a, b);
    if b == 0 {
        assert(a == times(g, 1));
        assert(b == times(g, 0));
    } else {
        lemma_gcd_divides(b, a % b);
        let kb = choose|k: nat| b == #[trigger] times(g, k);
        let kr = choose|k: nat| a % b == #[trigger] times(g, k);
        lemma_fundamental_div_mod(a as int, b as int);
        let q = a / b;
        let ka = kb * q + kr;
        assert(a == g * ka) by (nonlinear_arith)
            requires
                a == b * q + a % b,
                b == g * kb,
                a % b == g * kr,
                ka == kb * q + kr,
        ;
        assert(a == times(g, ka));
    }
}

/// Every common divisor of two numbers divides their greatest common divisor.
pub proof fn lemma_gcd_greatest(a: nat, b: nat, d: nat)
    requires
        divides(d, a),
        divides(d, b),
    ensures
        divides(d, spec_gcd(a, b)),
        spec_gcd(a, b) > 0 ==> d <= spec_gcd(a, b),
    decreases b,
{
    if b != 0 {
        let ka = choose|k: nat| a == #[trigger] times(d, k);
        let kb = choose|k: nat| b == #[trigger] times(d, k);
        lemma_fundamental_div_mod(a as int, b as int);
        let q = a / b;
        let r = a % b;
        assert(ka >= kb * q) by (nonlinear_arith)
            requires
                a == d * ka,
                b == d * kb,
                a == b * q + r,
                r >= 0,
                b > 0,
        ;
        let kr = (ka - kb * q) as nat;
        assert(r == d * kr) by (nonlinear_arith)
            requires
                a == d * ka,
                b == d * kb,
                a == b * q + r,
                kr == ka - kb * q,
        ;
        assert(r == times(d, kr));
        lemma_gcd_greatest(b, r, d);
    }
    let g = spec_gcd(a, b);
    if g > 0 {
        let k = choose|k: nat| g == #[trigger] times(d, k);
        assert(d <= g) by (nonlinear_arith)
            requires
                g == d * k,
                g > 0,
        ;
    }
}

/// The greatest common divisor is no greater than the greater of the two numbers.
pub proof fn lemma_gcd_bound(a: nat, b: nat, m: nat)
    requires
        a <= m,
        b <= m,
    ensures
        spec_gcd(a, b) <= m,
    decreases b,
{
    if b != 0 {
        lemma_gcd_bound(b, a % b, m);
    }
}

/// The magnitude of a value, held in a wider unsigned integer.
fn magnitude_of(a: Num) -> (m: u64)
    ensures
        m == magnitude(a as int),
        m <= 0x8000_0000,
{
    if a < 0 {
        (-(a as i64)) as u64
    } else {
        a as u64
    }
}

/// The greatest common divisor of the magnitudes of two values, stored with wraparound.
pub fn gcd(a: Num, b: Num) -> (r: Num)
    ensures
        r == wrap32(spec_gcd(magnitude(a as int), magnitude(b as int)) as int),
{
    let mut x: u64 = magnitude_of(a);
    let mut y: u64 = magnitude_of(b);
    while y != 0
        invariant
            x <= 0x8000_0000,
            y <= 0x8000_0000,
            spec_gcd(x as nat, y as nat) == spec_gcd(magnitude(a as int), magnitude(b as int)),
        decreases y,
    {
        let t: u64 = x % y;
        x = y;
        y = t;
    }
    proof {
        lemma_wrap32_basics(x as int);
        if x == 0x8000_0000 {
            lemma_fundamental_div_mod_converse(0x8000_0000, 0x1_0000_0000, 0, 0x8000_0000);
        }
    }
    if x == 0x8000_0000 {
        i32::MIN
    } else {
        x as i32
    }
}

} // verus!
