use pysearch::engine::Search;
use pysearch::kernel::Semantics;
use pysearch::params::{Config, Input, Matcher, OperatorFlags, OutputMap};

struct Parity;

impl OutputMap for Parity {
    fn spec_map(&self, x: i32) -> i32 {
        x & 1
    }

    fn map(&self, x: i32) -> i32 {
        x & 1
    }
}

fn config() -> Config<Parity> {
    Config {
        inputs: vec![Input { name: "x".to_string(), vec: vec![1, 2, 3, 4], min_uses: 0, max_uses: 255 }],
        goal: vec![0, 1, 0, 1],
        max_length: 3,
        max_cache_length: 10,
        literals: vec![1],
        max_literal: 0,
        ops: OperatorFlags::all(),
        reuse_vars: true,
        semantics: Semantics { floor_mod: false, error_value: None },
        mapping: Parity,
    }
}

#[test]
fn outputs_are_mapped_before_they_are_held_against_the_goal() {
    let c = config();
    let mut m = Matcher::new(&c);
    assert!(m.match_one(0, 4));
    assert!(m.match_one(1, 7));
    assert!(!m.match_one(1, 4));
    let mut search = Search::new(config()).unwrap();
    assert_eq!(search.advance().unwrap().len(), 0);
    let two: Vec<String> = search.advance().unwrap().iter().map(|e| search.render(e)).collect();
    assert_eq!(two, vec!["~x".to_string()]);
    let mut three: Vec<String> = search.advance().unwrap().iter().map(|e| search.render(e)).collect();
    three.sort();
    assert!(three.contains(&"1+x".to_string()));
    assert!(three.contains(&"x^1".to_string()));
    assert!(!three.contains(&"x*x".to_string()));
}
