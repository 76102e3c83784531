use pysearch::divmod::div_mod;
use pysearch::gcd::gcd;
use pysearch::num::{add_wrap, mul_wrap, neg_wrap};
use pysearch::power::{power, shift_left, shift_right};

#[test]
fn divmod_truncating_rounds_towards_zero() {
    assert_eq!(div_mod(-21, 4, false), Some((-5, -1)));
}

#[test]
fn divmod_floor_rounds_down() {
    assert_eq!(div_mod(-21, 4, true), Some((-6, 3)));
}

#[test]
fn divmod_undefined_inputs() {
    assert_eq!(div_mod(5, 0, false), None);
    assert_eq!(div_mod(i32::MIN, -1, true), None);
}

#[test]
fn wrapping_arithmetic() {
    assert_eq!(add_wrap(i32::MAX, 1), i32::MIN);
    assert_eq!(mul_wrap(65536, 65536), 0);
    assert_eq!(neg_wrap(i32::MIN), i32::MIN);
}

#[test]
fn shifts_and_powers() {
    assert_eq!(shift_left(1, 31), i32::MIN);
    assert_eq!(shift_left(-3, 2), -12);
    assert_eq!(shift_right(-5, 1), -3);
    assert_eq!(power(3, 4), 81);
    assert_eq!(power(7, 0), 1);
}

#[test]
fn gcd_of_magnitudes() {
    assert_eq!(gcd(-12, 18), 6);
    assert_eq!(gcd(0, 0), 0);
    assert_eq!(gcd(i32::MIN, 0), i32::MIN);
}

#[test]
fn divmod_matches_definitions_for_all_sign_pairs() {
    for (a, b) in [(7, 2), (-7, 2), (7, -2), (-7, -2), (6, 3), (-6, 3), (0, 5)] {
        let (q, m) = div_mod(a, b, false).unwrap();
        assert_eq!(q, a / b);
        assert_eq!(m, a % b);
        let (fq, fm) = div_mod(a, b, true).unwrap();
        assert_eq!(fm, ((a % b) + b) % b);
        assert_eq!(fq, (a - fm) / b);
    }
}
