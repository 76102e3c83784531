use pysearch::cache::Level;
use pysearch::candidate::{positive_integer_length, Shorter};
use pysearch::expr::{Expr, ExprRef};
use pysearch::index::keep_max;
use pysearch::keep::insert_to_level;
use pysearch::merge::merge_levels;
use pysearch::operator::Operator;
use pysearch::vecmap::{hash_vector, VecMap};

fn node(op: Operator) -> Expr {
    Expr::bin(ExprRef { len: 1, idx: 0 }, ExprRef { len: 1, idx: 1 }, op, 0)
}

#[test]
fn keep_best_inserts_then_replaces_only_on_strictly_greater_code() {
    let mut level = Level::new();
    insert_to_level(&mut level, vec![1, 2], node(Operator::Add));
    assert_eq!(level.len(), 1);
    assert_eq!(level.val_at(0).op, Operator::Add);
    insert_to_level(&mut level, vec![1, 2], node(Operator::Mul));
    assert_eq!(level.len(), 1);
    assert_eq!(level.val_at(0).op, Operator::Mul);
    insert_to_level(&mut level, vec![1, 2], node(Operator::Sub));
    assert_eq!(level.val_at(0).op, Operator::Mul);
    let same = Expr::bin(ExprRef { len: 2, idx: 5 }, ExprRef { len: 1, idx: 1 }, Operator::Mul, 0);
    insert_to_level(&mut level, vec![1, 2], same);
    assert_eq!(level.val_at(0), node(Operator::Mul));
    insert_to_level(&mut level, vec![1, 3], node(Operator::Lt));
    assert_eq!(level.len(), 2);
    assert_eq!(level.find(&vec![1, 3]), Some(1));
    assert_eq!(level.find(&vec![1, 2]), Some(0));
    assert_eq!(level.find(&vec![2, 1]), None);
}

#[test]
fn tie_break_orders_operators_of_one_class() {
    assert!(Operator::Sub.code() > Operator::Add.code());
    assert!(Operator::Mul.code() > Operator::Sub.code());
    assert!(Operator::Literal.code() > Operator::Parens.code());
    assert_eq!(Operator::Add.prec(), Operator::Sub.prec());
    assert_eq!(Operator::Or.code(), 48);
    assert_eq!(Operator::Gcd.code(), 11 * 16 + 4);
}

#[test]
fn map_keeps_many_keys_across_growth() {
    let mut m: VecMap<u8> = VecMap::new();
    for i in 0..500i32 {
        let key = vec![i, -i, i * 7];
        assert_eq!(m.find(&key), None);
        m.push_new(key, (i % 200) as u8);
    }
    assert_eq!(m.len(), 500);
    for i in 0..500i32 {
        let at = m.find(&vec![i, -i, i * 7]).unwrap();
        assert_eq!(at, i as usize);
        assert_eq!(m.val_at(at), (i % 200) as u8);
        assert_eq!(m.key_at(at), &vec![i, -i, i * 7]);
    }
    assert_eq!(m.find(&vec![1, 1, 1]), None);
    m.set_val(3, 250);
    assert_eq!(m.val_at(3), 250);
}

#[test]
fn equal_vectors_hash_alike() {
    assert_eq!(hash_vector(&vec![1, 2, 3]), hash_vector(&vec![1, 2, 3]));
    assert_ne!(hash_vector(&vec![1, 2, 3]), hash_vector(&vec![3, 2, 1]));
    assert_eq!(hash_vector(&vec![]), 0xcbf2_9ce4_8422_2325);
}

#[test]
fn index_keeps_the_greatest_class() {
    let mut s = Shorter::new();
    keep_max(&mut s, &vec![4, 4], 10);
    keep_max(&mut s, &vec![4, 4], 6);
    assert_eq!(s.val_at(s.find(&vec![4, 4]).unwrap()), 10);
    keep_max(&mut s, &vec![4, 4], 15);
    assert_eq!(s.val_at(s.find(&vec![4, 4]).unwrap()), 15);
    assert_eq!(s.len(), 1);
}

#[test]
fn decimal_lengths() {
    assert_eq!(positive_integer_length(0), 1);
    assert_eq!(positive_integer_length(9), 1);
    assert_eq!(positive_integer_length(10), 2);
    assert_eq!(positive_integer_length(99), 2);
    assert_eq!(positive_integer_length(100), 3);
    assert_eq!(positive_integer_length(i32::MAX), 10);
}

fn level_of(entries: &[(Vec<i32>, Operator)]) -> Level {
    let mut level = Level::new();
    for (key, op) in entries {
        insert_to_level(&mut level, key.clone(), node(*op));
    }
    level
}

fn codes(level: &Level) -> Vec<(Vec<i32>, u8)> {
    let mut out: Vec<(Vec<i32>, u8)> =
        (0..level.len()).map(|i| (level.key_at(i).clone(), level.val_at(i).op.code())).collect();
    out.sort();
    out
}

#[test]
fn merge_keeps_the_best_of_both_levels() {
    let mut a = level_of(&[(vec![1], Operator::Add), (vec![2], Operator::Mul)]);
    let b = level_of(&[(vec![2], Operator::Add), (vec![1], Operator::Exp), (vec![3], Operator::Lt)]);
    merge_levels(&mut a, &b);
    assert_eq!(a.len(), 3);
    assert_eq!(a.val_at(a.find(&vec![1]).unwrap()).op, Operator::Exp);
    assert_eq!(a.val_at(a.find(&vec![2]).unwrap()).op, Operator::Mul);
    assert_eq!(a.val_at(a.find(&vec![3]).unwrap()).op, Operator::Lt);
}

#[test]
fn merge_gives_the_same_codes_in_any_order_and_grouping() {
    let parts = [
        vec![(vec![1], Operator::Add), (vec![2], Operator::Mul), (vec![5], Operator::BitOr)],
        vec![(vec![2], Operator::Add), (vec![1], Operator::Exp), (vec![3], Operator::Lt)],
        vec![(vec![3], Operator::Le), (vec![1], Operator::Sub), (vec![4], Operator::Neg)],
    ];
    let mut left = level_of(&parts[0]);
    merge_levels(&mut left, &level_of(&parts[1]));
    merge_levels(&mut left, &level_of(&parts[2]));
    let mut tail = level_of(&parts[1]);
    merge_levels(&mut tail, &level_of(&parts[2]));
    let mut right = level_of(&parts[0]);
    merge_levels(&mut right, &tail);
    let mut back = level_of(&parts[2]);
    merge_levels(&mut back, &level_of(&parts[1]));
    merge_levels(&mut back, &level_of(&parts[0]));
    assert_eq!(codes(&left), codes(&right));
    assert_eq!(codes(&left), codes(&back));
    assert_eq!(
        codes(&left),
        vec![
            (vec![1], Operator::Exp.code()),
            (vec![2], Operator::Mul.code()),
            (vec![3], Operator::Le.code()),
            (vec![4], Operator::Neg.code()),
            (vec![5], Operator::BitOr.code()),
        ]
    );
}
