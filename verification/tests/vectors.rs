use pysearch::kernel::{binary_op, unary_op, Semantics};
use pysearch::operator::Operator;
use pysearch::vector::{divmod, vec_binary, vec_constant, vec_eq, vec_unary};

fn plain() -> Semantics {
    Semantics { floor_mod: false, error_value: None }
}

#[test]
fn total_operators_elementwise() {
    let a = vec![1, -2, 3, 0];
    let b = vec![4, 5, -6, 7];
    let s = plain();
    assert_eq!(vec_binary(Operator::Add, &a, &b, &s), Some(vec![5, 3, -3, 7]));
    assert_eq!(vec_binary(Operator::Sub, &a, &b, &s), Some(vec![-3, -7, 9, -7]));
    assert_eq!(vec_binary(Operator::Mul, &a, &b, &s), Some(vec![4, -10, -18, 0]));
    assert_eq!(vec_binary(Operator::BitOr, &a, &b, &s), Some(vec![5, -1, -5, 7]));
    assert_eq!(vec_binary(Operator::BitXor, &a, &b, &s), Some(vec![5, -5, -7, 7]));
    assert_eq!(vec_binary(Operator::BitAnd, &a, &b, &s), Some(vec![0, 4, 2, 0]));
    assert_eq!(vec_binary(Operator::Lt, &a, &b, &s), Some(vec![1, 1, 0, 1]));
    assert_eq!(vec_binary(Operator::Le, &a, &a, &s), Some(vec![1, 1, 1, 1]));
    assert_eq!(vec_binary(Operator::Or, &a, &b, &s), Some(vec![1, -2, 3, 7]));
    assert_eq!(vec_binary(Operator::Gcd, &vec![12, -9, 0], &vec![18, 6, 5], &s), Some(vec![6, 3, 5]));
}

#[test]
fn unary_operators_elementwise() {
    let a = vec![1, -2, 0, i32::MIN];
    let s = plain();
    assert_eq!(vec_unary(Operator::Neg, &a, &s), Some(vec![-1, 2, 0, i32::MIN]));
    assert_eq!(vec_unary(Operator::BitNeg, &a, &s), Some(vec![-2, 1, -1, i32::MAX]));
    assert_eq!(vec_unary(Operator::Add, &a, &s), None);
}

#[test]
fn partial_operators_are_inapplicable_out_of_domain() {
    let s = plain();
    assert_eq!(vec_binary(Operator::Mod, &vec![5, 6], &vec![2, 0], &s), None);
    assert_eq!(vec_binary(Operator::Div1, &vec![i32::MIN], &vec![-1], &s), None);
    assert_eq!(vec_binary(Operator::BitShl, &vec![1, 1], &vec![31, 32], &s), None);
    assert_eq!(vec_binary(Operator::BitShr, &vec![8], &vec![-1], &s), None);
    assert_eq!(vec_binary(Operator::Exp, &vec![2, 2], &vec![6, 7], &s), None);
    assert_eq!(vec_binary(Operator::BitShl, &vec![3, 1], &vec![2, 31], &s), Some(vec![12, i32::MIN]));
    assert_eq!(vec_binary(Operator::BitShr, &vec![-8, 9], &vec![1, 3], &s), Some(vec![-4, 1]));
    assert_eq!(vec_binary(Operator::Exp, &vec![2, -3, 9], &vec![6, 3, 0], &s), Some(vec![64, -27, 1]));
    assert_eq!(vec_binary(Operator::Div2, &vec![-21], &vec![4], &s), Some(vec![-5]));
}

#[test]
fn vectors_of_different_length_do_not_combine() {
    assert_eq!(vec_binary(Operator::Add, &vec![1, 2], &vec![1], &plain()), None);
    assert_eq!(divmod(&vec![1, 2], &vec![1], &plain()), None);
}

#[test]
fn divmod_in_one_pass() {
    let a = vec![-21, 21, 7];
    let b = vec![4, -4, 7];
    assert_eq!(divmod(&a, &b, &plain()), Some((vec![-5, -5, 1], vec![-1, 1, 0])));
    let floor = Semantics { floor_mod: true, error_value: None };
    assert_eq!(divmod(&a, &b, &floor), Some((vec![-6, -6, 1], vec![3, -3, 0])));
    assert_eq!(vec_binary(Operator::Mod, &a, &b, &floor), Some(vec![3, -3, 0]));
    assert_eq!(vec_binary(Operator::Div1, &a, &b, &floor), Some(vec![-6, -6, 1]));
    assert_eq!(divmod(&vec![1], &vec![0], &plain()), None);
}

#[test]
fn error_value_makes_partial_operators_total_and_absorbs() {
    let e = -159236;
    let s = Semantics { floor_mod: false, error_value: Some(e) };
    assert_eq!(binary_op(Operator::Div1, 1, 0, &s), Some(e));
    assert_eq!(binary_op(Operator::Mul, e, 2, &s), Some(e));
    assert_eq!(binary_op(Operator::Add, 2, e, &s), Some(e));
    assert_eq!(binary_op(Operator::Lt, e, 0, &s), Some(e));
    assert_eq!(unary_op(Operator::Neg, e, &s), Some(e));
    assert_eq!(binary_op(Operator::BitShl, 1, 40, &s), Some(e));
    assert_eq!(binary_op(Operator::Add, 2, 3, &s), Some(5));
    assert_eq!(vec_binary(Operator::Mod, &vec![5, 6], &vec![2, 0], &s), Some(vec![1, e]));
    assert_eq!(divmod(&vec![5, e], &vec![0, 3], &s), Some((vec![e, e], vec![e, e])));
}

#[test]
fn operators_that_are_not_binary_yield_nothing() {
    let e = Semantics { floor_mod: false, error_value: Some(9) };
    assert_eq!(binary_op(Operator::Neg, 1, 2, &plain()), None);
    assert_eq!(binary_op(Operator::Parens, 1, 2, &e), None);
    assert_eq!(unary_op(Operator::Literal, 1, &e), None);
}

#[test]
fn equality_and_constants() {
    assert!(vec_eq(&vec![1, 2, 3], &vec![1, 2, 3]));
    assert!(!vec_eq(&vec![1, 2, 3], &vec![1, 2]));
    assert!(!vec_eq(&vec![1, 2, 3], &vec![1, 2, 4]));
    assert_eq!(vec_constant(7, 3), vec![7, 7, 7]);
    assert_eq!(vec_constant(7, 0), Vec::<i32>::new());
}
