use pysearch::expr::Expr;
use pysearch::kernel::Semantics;
use pysearch::operator::Operator;
use pysearch::params::{Config, ConfigError, Identity, Input, Matcher, OperatorFlags};

fn config(inputs: Vec<Vec<i32>>, goal: Vec<i32>, literals: Vec<i32>, max_literal: i32) -> Config<Identity> {
    let mut named = Vec::new();
    for (i, vec) in inputs.into_iter().enumerate() {
        let name = ["a", "b", "c", "d", "e", "f", "g", "h", "i"][i].to_string();
        named.push(Input { name, vec, min_uses: 0, max_uses: 255 });
    }
    Config {
        inputs: named,
        goal,
        max_length: 3,
        max_cache_length: 10,
        literals,
        max_literal,
        ops: OperatorFlags::all(),
        reuse_vars: true,
        semantics: Semantics { floor_mod: false, error_value: None },
        mapping: Identity,
    }
}

#[test]
fn valid_configuration_is_accepted() {
    assert_eq!(config(vec![vec![1, 2]], vec![3, 4], vec![0, 5], 9).validate(), Ok(()));
    assert_eq!(config(vec![], vec![3], vec![], 0).validate(), Ok(()));
}

#[test]
fn empty_goal_is_refused() {
    assert_eq!(config(vec![], vec![], vec![], 0).validate(), Err(ConfigError::EmptyGoal));
    assert_eq!(config(vec![vec![1]], vec![], vec![-1], 0).validate(), Err(ConfigError::EmptyGoal));
}

#[test]
fn too_many_inputs_are_refused() {
    let nine = vec![vec![1]; 9];
    assert_eq!(config(nine, vec![1], vec![], 0).validate(), Err(ConfigError::TooManyInputs));
    let eight = vec![vec![1]; 8];
    assert_eq!(config(eight, vec![1], vec![], 0).validate(), Ok(()));
}

#[test]
fn mismatched_lengths_are_refused() {
    assert_eq!(
        config(vec![vec![1, 2], vec![1]], vec![1, 2], vec![], 0).validate(),
        Err(ConfigError::LengthMismatch)
    );
    assert_eq!(
        config(vec![vec![]], vec![1], vec![-3], 0).validate(),
        Err(ConfigError::LengthMismatch)
    );
}

#[test]
fn malformed_literals_are_refused() {
    assert_eq!(
        config(vec![vec![1]], vec![1], vec![2, -1], 0).validate(),
        Err(ConfigError::MalformedLiterals)
    );
    assert_eq!(
        config(vec![vec![1]], vec![1], vec![], -1).validate(),
        Err(ConfigError::MalformedLiterals)
    );
}

#[test]
fn matcher_compares_value_by_value() {
    let c = config(vec![vec![1, 2]], vec![3, 4], vec![], 0);
    let mut m = Matcher::new(&c);
    assert!(m.match_one(0, 3));
    assert!(!m.match_one(0, 4));
    assert!(m.match_one(1, 4));
    assert!(m.match_final(&Expr::literal(3)));
    let leaf = Expr::literal(1);
    assert!(Matcher::match_all(&c, &vec![3, 4], &leaf));
    assert!(!Matcher::match_all(&c, &vec![3, 5], &leaf));
    assert!(!Matcher::match_all(&c, &vec![3], &leaf));
    assert!(!Matcher::match_all(&c, &vec![3, 4, 5], &leaf));
}

#[test]
fn operator_flags() {
    let none = OperatorFlags::none();
    let all = OperatorFlags::all();
    for op in [Operator::Or, Operator::SpaceOr, Operator::Add, Operator::Neg, Operator::Exp] {
        assert!(!none.enabled(op));
        assert!(all.enabled(op));
    }
    let mut only_or = OperatorFlags::none();
    only_or.or = true;
    assert!(only_or.enabled(Operator::OrSpace));
    assert!(!only_or.enabled(Operator::BitOr));
}
