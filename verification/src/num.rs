//! 32-bit values with wraparound, and the operators that are defined everywhere.

use vstd::arithmetic::div_mod::{
    lemma_add_mod_noop, lemma_fundamental_div_mod_converse, lemma_mod_multiples_vanish,
    lemma_mul_mod_noop_general, lemma_sub_mod_noop,
};
use vstd::prelude::*;

verus! {

/// The fixed-width signed integer that every value of the search is held in.
pub type Num = i32;

/// The value a mathematical integer takes when only its low 32 bits are kept and read as a
/// signed number.
pub open spec fn wrap32(x: int) -> int {
    let m = x % 0x1_0000_0000;
    if m > 0x7fff_ffff {
        m - 0x1_0000_0000
    } else {
        m
    }
}

/// Wrapping leaves the numbers that fit unchanged and depends only on the residue.
pub proof fn lemma_wrap32_basics(x: int)
    ensures
        i32::MIN <= wrap32(x) <= i32::MAX,
        wrap32(x) % 0x1_0000_0000 == x % 0x1_0000_0000,
        i32::MIN <= x <= i32::MAX ==> wrap32(x) == x,
{
    let m = x % 0x1_0000_0000;
    if m > 0x7fff_ffff {
        lemma_mod_multiples_vanish(-1, m, 0x1_0000_0000);
    }
    if i32::MIN <= x <= i32::MAX {
        if x < 0 {
            lemma_fundamental_div_mod_converse(x, 0x1_0000_0000, -1, x + 0x1_0000_0000);
        } else {
            lemma_fundamental_div_mod_converse(x, 0x1_0000_0000, 0, x);
        }
    }
}

/// Two integers with the same residue wrap to the same value.
pub proof fn lemma_wrap32_congruent(x: int, y: int)
    requires
        x % 0x1_0000_0000 == y % 0x1_0000_0000,
    ensures
        wrap32(x) == wrap32(y),
{
}

/// Wrapping an operand before a sum, a difference or a product does not change the wrapped
/// result.
pub proof fn lemma_wrap32_absorbs(x: int, y: int)
    ensures
        wrap32(wrap32(x) + wrap32(y)) == wrap32(x + y),
        wrap32(wrap32(x) - wrap32(y)) == wrap32(x - y),
        wrap32(wrap32(x) * wrap32(y)) == wrap32(x * y),
        wrap32(wrap32(x) * y) == wrap32(x * y),
{
    let m = 0x1_0000_0000int;
    lemma_wrap32_basics(x);
    lemma_wrap32_basics(y);
    lemma_add_mod_noop(wrap32(x), wrap32(y), m);
    lemma_add_mod_noop(x, y, m);
    lemma_sub_mod_noop(wrap32(x), wrap32(y), m);
    lemma_sub_mod_noop(x, y, m);
    lemma_mul_mod_noop_general(wrap32(x), wrap32(y), m);
    lemma_mul_mod_noop_general(x, y, m);
    lemma_mul_mod_noop_general(wrap32(x), y, m);
}

/// Sum with wraparound.
pub fn add_wrap(a: Num, b: Num) -> (r: Num)
    ensures
        r == wrap32(a + b),
{
    proof {
        lemma_wrap32_basics(a + b);
        lemma_wrap32_congruent(a + b, a + b - 0x1_0000_0000);
        lemma_wrap32_congruent(a + b, a + b + 0x1_0000_0000);
        lemma_wrap32_basics(a + b - 0x1_0000_0000);
        lemma_wrap32_basics(a + b + 0x1_0000_0000);
        lemma_mod_multiples_vanish(-1, a + b, 0x1_0000_0000);
        lemma_mod_multiples_vanish(1, a + b, 0x1_0000_0000);
    }
    a.wrapping_add(b)
}

/// Difference with wraparound.
pub fn sub_wrap(a: Num, b: Num) -> (r: Num)
    ensures
        r == wrap32(a - b),
{
    proof {
        lemma_wrap32_basics(a - b);
        lemma_wrap32_basics(a - b - 0x1_0000_0000);
        lemma_wrap32_basics(a - b + 0x1_0000_0000);
        lemma_mod_multiples_vanish(-1, a - b, 0x1_0000_0000);
        lemma_mod_multiples_vanish(1, a - b, 0x1_0000_0000);
    }
    a.wrapping_sub(b)
}

/// Product with wraparound.
pub fn mul_wrap(a: Num, b: Num) -> (r: Num)
    ensures
        r == wrap32(a * b),
{
    a.wrapping_mul(b)
}

/// Negation with wraparound: the least value is its own negative.
pub fn neg_wrap(a: Num) -> (r: Num)
    ensures
        r == wrap32(-a),
        a != i32::MIN ==> r == -a,
        a == i32::MIN ==> r == i32::MIN,
{
    let r = sub_wrap(0, a);
    proof {
        lemma_wrap32_basics(-a);
        if a == i32::MIN {
            lemma_fundamental_div_mod_converse(0x8000_0000, 0x1_0000_0000, 0, 0x8000_0000);
        }
    }
    r
}

/// Bitwise complement.
pub fn bit_not(a: Num) -> (r: Num)
    ensures
        r == !a,
        r == -1 - a,
{
    assert(!a == -1 - a) by (bit_vector);
    !a
}

/// Bitwise or.
pub fn bit_or(a: Num, b: Num) -> (r: Num)
    ensures
        r == a | b,
{
    a | b
}

/// Bitwise exclusive or.
pub fn bit_xor(a: Num, b: Num) -> (r: Num)
    ensures
        r == a ^ b,
{
    a ^ b
}

/// Bitwise and.
pub fn bit_and(a: Num, b: Num) -> (r: Num)
    ensures
        r == a & b,
{
    a & b
}

/// One where `a < b`, zero elsewhere.
pub fn less_than(a: Num, b: Num) -> (r: Num)
    ensures
        r == (if a < b { 1int } else { 0int }),
{
    if a < b { 1 } else { 0 }
}

/// One where `a <= b`, zero elsewhere.
pub fn less_equal(a: Num, b: Num) -> (r: Num)
    ensures
        r == (if a <= b { 1int } else { 0int }),
{
    if a <= b { 1 } else { 0 }
}

/// The keyword `or`: the left value where it is not zero, the right value elsewhere.
pub fn keyword_or(a: Num, b: Num) -> (r: Num)
    ensures
        r == (if a != 0 { a } else { b }),
{
    if a != 0 { a } else { b }
}

} // verus!
