use pysearch::cache::{ok_after_keyword, ok_before_keyword};
use pysearch::engine::Search;
use pysearch::expr::{Expr, ExprRef};
use pysearch::kernel::Semantics;
use pysearch::operator::Operator;
use pysearch::params::{Config, ConfigError, Identity, Input, OperatorFlags};
use pysearch::search::{find_expressions, find_expressions_sequential};

fn config(
    inputs: Vec<(&str, Vec<i32>)>,
    goal: Vec<i32>,
    max_length: usize,
    literals: Vec<i32>,
    ops: OperatorFlags,
) -> Config<Identity> {
    let mut named = Vec::new();
    for (name, vec) in inputs {
        named.push(Input { name: name.to_string(), vec, min_uses: 0, max_uses: 255 });
    }
    Config {
        inputs: named,
        goal,
        max_length,
        max_cache_length: 10,
        literals,
        max_literal: 0,
        ops,
        reuse_vars: true,
        semantics: Semantics { floor_mod: false, error_value: None },
        mapping: Identity,
    }
}

fn solve(config: Config<Identity>, parallel: bool) -> (Search<Identity>, Vec<Vec<String>>) {
    let mut search = Search::new(config).unwrap();
    let mut found = Vec::new();
    loop {
        let step = if parallel { search.advance() } else { search.advance_sequential() };
        match step {
            Some(solutions) => {
                let mut texts: Vec<String> = solutions.iter().map(|e| search.render(e)).collect();
                texts.sort();
                found.push(texts);
            }
            None => return (search, found),
        }
    }
}

fn texts(items: &[&str]) -> Vec<String> {
    items.iter().map(|s| s.to_string()).collect()
}

#[test]
fn variable_that_is_the_goal_is_reported_at_length_one() {
    let c = config(vec![("x", vec![1, 2, 3, 4])], vec![1, 2, 3, 4], 1, vec![], OperatorFlags::all());
    let (search, found) = solve(c, true);
    assert_eq!(found, vec![texts(&["x"])]);
    assert_eq!(search.next_length(), 2);
    assert_eq!(search.level(1).len(), 1);
}

#[test]
fn variable_that_is_the_goal_is_alone_at_length_one_with_longer_search() {
    let c = config(vec![("x", vec![1, 2, 3, 4])], vec![1, 2, 3, 4], 3, vec![7], OperatorFlags::all());
    let (_, found) = solve(c, false);
    assert_eq!(found[0], texts(&["x"]));
}

#[test]
fn literal_that_is_the_goal_is_reported_without_operators() {
    let c = config(vec![], vec![5, 5, 5, 5], 2, vec![5], OperatorFlags::none());
    let (search, found) = solve(c, true);
    assert_eq!(found, vec![texts(&["5"]), texts(&[])]);
    assert_eq!(search.level(1).len(), 1);
    assert_eq!(search.level(2).len(), 0);
}

#[test]
fn invalid_configuration_does_not_start() {
    let c = config(vec![("x", vec![1, 2, 3])], vec![1, 2, 3, 4], 1, vec![], OperatorFlags::all());
    assert!(matches!(Search::new(c), Err(ConfigError::LengthMismatch)));
}

#[test]
fn sum_with_a_literal_is_found_at_length_three() {
    let c = config(vec![("x", vec![1, 2, 3, 4])], vec![2, 3, 4, 5], 3, vec![1], OperatorFlags::all());
    let (_, found) = solve(c, true);
    assert_eq!(found, vec![texts(&[]), texts(&[]), texts(&["-~x", "1+x", "x+1"])]);
}

#[test]
fn search_stops_at_the_greatest_length() {
    let c = config(vec![("x", vec![1, 2])], vec![9, 9], 2, vec![], OperatorFlags::all());
    let mut search = Search::new(c).unwrap();
    assert_eq!(search.next_length(), 1);
    assert!(search.advance().is_some());
    assert!(search.advance().is_some());
    assert_eq!(search.next_length(), 3);
    assert!(search.advance().is_none());
    assert!(search.advance_sequential().is_none());
    assert_eq!(search.next_length(), 3);
}

#[test]
fn base_cases_fill_level_one() {
    let c = config(
        vec![("x", vec![1, 2]), ("y", vec![3, 4])],
        vec![0, 0],
        1,
        vec![5, 12, 7],
        OperatorFlags::all(),
    );
    let (search, found) = solve(c, true);
    assert_eq!(found, vec![texts(&[])]);
    let level = search.level(1);
    assert_eq!(level.len(), 4);
    for key in [vec![1, 2], vec![3, 4], vec![5, 5], vec![7, 7]] {
        let at = level.find(&key).unwrap();
        assert_eq!(level.val_at(at).op, Operator::Literal);
    }
    assert_eq!(level.find(&vec![12, 12]), None);
    assert_eq!(level.val_at(level.find(&vec![1, 2]).unwrap()), Expr::variable(0));
    assert_eq!(level.val_at(level.find(&vec![3, 4]).unwrap()), Expr::variable(1));
    assert_eq!(level.val_at(level.find(&vec![7, 7]).unwrap()), Expr::literal(7));
}

#[test]
fn literals_enter_at_the_length_of_their_digits() {
    let mut c = config(vec![], vec![0], 3, vec![5, 12, 345], OperatorFlags::none());
    c.max_literal = 11;
    let (search, _) = solve(c, false);
    assert_eq!(search.level(1).len(), 9);
    assert_eq!(search.level(2).len(), 3);
    assert_eq!(search.level(3).len(), 1);
    assert!(search.level(2).find(&vec![12]).is_some());
    assert!(search.level(2).find(&vec![11]).is_some());
    assert!(search.level(2).find(&vec![10]).is_some());
    assert!(search.level(3).find(&vec![345]).is_some());
}

#[test]
fn a_literal_in_the_list_and_in_the_range_is_reported_once() {
    let mut c = config(vec![], vec![5], 1, vec![5, 5], OperatorFlags::none());
    c.max_literal = 9;
    let (_, found) = solve(c, true);
    assert_eq!(found, vec![texts(&["5"])]);
}

fn wide(parallel: bool, reuse_vars: bool) -> (Search<Identity>, Vec<Vec<String>>) {
    let mut c = config(
        vec![("x", vec![1, 2, 3, 4]), ("y", vec![4, 3, 2, 2])],
        vec![5, 5, 5, 6],
        5,
        vec![1, 2, 3],
        OperatorFlags::all(),
    );
    c.reuse_vars = reuse_vars;
    solve(c, parallel)
}

#[test]
fn sequential_and_parallel_construction_agree() {
    for reuse in [true, false] {
        let (one, found_one) = wide(false, reuse);
        let (two, found_two) = wide(true, reuse);
        assert_eq!(found_one, found_two);
        assert_eq!(one.next_length(), two.next_length());
        for n in 1..one.next_length() {
            let (a, b) = (one.level(n), two.level(n));
            assert_eq!(a.len(), b.len());
            for i in 0..a.len() {
                let at = b.find(a.key_at(i)).unwrap();
                assert_eq!(a.val_at(i).op.code(), b.val_at(at).op.code());
            }
        }
    }
}

#[test]
fn reported_expressions_have_the_length_at_which_they_were_found() {
    let (_, found) = wide(true, true);
    let mut total = 0;
    for (i, level) in found.iter().enumerate() {
        for text in level {
            assert_eq!(text.chars().count(), i + 1);
            total += 1;
        }
    }
    assert!(total > 0);
    assert!(found[2].contains(&"x+y".to_string()));
    assert!(found[2].contains(&"y+x".to_string()));
}

#[test]
fn no_composed_expression_repeats_a_shorter_output_without_gain() {
    let (search, _) = wide(true, true);
    let mut checked = 0;
    for n in 2..search.next_length() {
        let level = search.level(n);
        for i in 0..level.len() {
            let e = level.val_at(i);
            if !(e.op.is_binary() || e.op.is_unary()) {
                continue;
            }
            for m in 1..n {
                if let Some(at) = search.level(m).find(level.key_at(i)) {
                    assert!(search.level(m).val_at(at).op.prec() < e.op.prec());
                    checked += 1;
                }
            }
        }
    }
    assert!(checked > 0);
}

#[test]
fn a_longer_spelling_of_a_shorter_output_is_pruned() {
    let c = config(vec![("x", vec![1, 2, 3, 4])], vec![9, 9, 9, 9], 3, vec![1], OperatorFlags::all());
    let (search, _) = solve(c, false);
    assert!(search.level(1).find(&vec![1, 2, 3, 4]).is_some());
    assert_eq!(search.level(3).find(&vec![1, 2, 3, 4]), None);
    let doubled = search.level(3).find(&vec![2, 4, 6, 8]).unwrap();
    assert_eq!(search.level(3).val_at(doubled).op, Operator::Add);
}

#[test]
fn every_level_keeps_the_best_precedence_per_output() {
    let c = config(vec![("x", vec![2, 3, 4, 5])], vec![0, 0, 0, 1], 3, vec![2], OperatorFlags::all());
    let (search, _) = solve(c, true);
    let level = search.level(3);
    let squares = level.find(&vec![4, 9, 16, 25]).unwrap();
    assert_eq!(level.val_at(squares).op, Operator::Mul);
    let fours = level.find(&vec![4, 4, 4, 4]).unwrap();
    assert_eq!(level.val_at(fours).op, Operator::Mul);
}

#[test]
fn brackets_raise_an_expression_for_reuse() {
    let mut ops = OperatorFlags::none();
    ops.add = true;
    ops.mul = true;
    let c = config(vec![("x", vec![1, 2, 3, 4])], vec![4, 6, 8, 10], 7, vec![1, 2], ops);
    let (search, found) = solve(c, true);
    assert!(found[6].contains(&"(1+x)*2".to_string()));
    assert!(found[6].contains(&"2*(1+x)".to_string()));
    assert!(found[4].contains(&"2*x+2".to_string()));
    let level = search.level(5);
    let at = level.find(&vec![2, 3, 4, 5]).unwrap();
    assert_eq!(level.val_at(at).op, Operator::Parens);
    assert_eq!(search.render(&level.val_at(at)), "(1+x)");
}

#[test]
fn the_tighter_spelling_of_an_output_survives() {
    let c = config(vec![("x", vec![1, 2, 3, 4])], vec![4, 6, 8, 10], 5, vec![1, 2], OperatorFlags::all());
    let (search, found) = solve(c, true);
    let level = search.level(3);
    let at = level.find(&vec![2, 3, 4, 5]).unwrap();
    assert_eq!(search.render(&level.val_at(at)), "-~x");
    assert!(found[4].contains(&"-~x*2".to_string()));
    assert!(found[4].contains(&"2*-~x".to_string()));
}

#[test]
fn prefix_operators_apply_to_tight_operands() {
    let mut ops = OperatorFlags::none();
    ops.neg = true;
    ops.bit_neg = true;
    let c = config(vec![("x", vec![1, 2, 3, 4])], vec![0, 1, 2, 3], 3, vec![], ops);
    let (_, found) = solve(c, true);
    assert_eq!(found, vec![texts(&[]), texts(&[]), texts(&["~-x"])]);
}

#[test]
fn keyword_or_takes_the_form_its_operands_admit() {
    let mut ops = OperatorFlags::none();
    ops.or = true;
    let c = config(vec![("x", vec![1, 0, 3, 0])], vec![1, 7, 3, 7], 5, vec![0, 7], ops);
    let (search, found) = solve(c, true);
    assert_eq!(found[0], texts(&[]));
    assert_eq!(found[3], texts(&[]));
    assert_eq!(found[4], texts(&[]));
    let zero = ExprRef { len: 1, idx: search.level(1).find(&vec![0, 0, 0, 0]).unwrap() };
    let x = ExprRef { len: 1, idx: search.level(1).find(&vec![1, 0, 3, 0]).unwrap() };
    assert!(ok_before_keyword(search.cache(), zero));
    assert!(!ok_before_keyword(search.cache(), x));
    assert!(!ok_after_keyword(search.cache(), zero));
    assert!(!ok_after_keyword(search.cache(), x));
}

#[test]
fn keyword_or_with_a_space_after_a_literal() {
    let mut ops = OperatorFlags::none();
    ops.or = true;
    let c = config(vec![("x", vec![1, 2, 3, 4])], vec![1, 2, 3, 4], 5, vec![0], ops);
    let (_, found) = solve(c, false);
    assert_eq!(found[0], texts(&["x"]));
    assert_eq!(found[3], texts(&[]));
    assert_eq!(found[4], texts(&["0or x"]));
}

#[test]
fn keyword_or_without_a_space_between_digit_and_prefix() {
    let mut ops = OperatorFlags::none();
    ops.or = true;
    ops.neg = true;
    let c = config(vec![("x", vec![0, 2, 0, 4])], vec![5, 5, 5, 5], 5, vec![5], ops);
    let (_, found) = solve(c, true);
    assert_eq!(found[0], texts(&["5"]));
    assert_eq!(found[3], texts(&[]));
    assert_eq!(found[4], texts(&["-(-5)", "5or 5", "5or x", "5or-5", "5or-x"]));
}

#[test]
fn variables_are_not_reused_where_that_is_switched_off() {
    let mut c = config(vec![("x", vec![1, 2, 3, 4])], vec![2, 4, 6, 8], 3, vec![2], OperatorFlags::all());
    c.reuse_vars = false;
    let (_, found) = solve(c, true);
    assert_eq!(found[2], texts(&["2*x", "x*2"]));
    let mut again = config(vec![("x", vec![1, 2, 3, 4])], vec![2, 4, 6, 8], 3, vec![2], OperatorFlags::all());
    again.reuse_vars = true;
    let (_, found) = solve(again, true);
    assert_eq!(found[2], texts(&["2*x", "x*2", "x+x"]));
}

#[test]
fn rendering_spells_every_operator() {
    let c = config(vec![("n", vec![3, 5])], vec![0, 0], 1, vec![40], OperatorFlags::none());
    let (search, _) = solve(c, true);
    let n = ExprRef { len: 1, idx: 0 };
    let leaf = search.level(1).val_at(0);
    assert_eq!(search.render(&leaf), "n");
    assert_eq!(search.render(&Expr::literal(40)), "40");
    assert_eq!(search.render(&Expr::literal(0)), "0");
    assert_eq!(search.render(&Expr::literal(1234567890)), "1234567890");
    assert_eq!(search.render(&Expr::parens(&leaf, n)), "(n)");
    assert_eq!(search.render(&Expr::unary(&leaf, n, Operator::Neg)), "-n");
    assert_eq!(search.render(&Expr::unary(&leaf, n, Operator::BitNeg)), "~n");
    for (op, text) in [
        (Operator::Or, "norn"), (Operator::SpaceOr, "n orn"), (Operator::OrSpace, "nor n"),
        (Operator::Lt, "n<n"), (Operator::Le, "n<=n"), (Operator::BitOr, "n|n"),
        (Operator::BitXor, "n^n"), (Operator::BitAnd, "n&n"), (Operator::BitShl, "n<<n"),
        (Operator::BitShr, "n>>n"), (Operator::Add, "n+n"), (Operator::Sub, "n-n"),
        (Operator::Mul, "n*n"), (Operator::Mod, "n%n"), (Operator::Div1, "n/n"),
        (Operator::Div2, "n//n"), (Operator::Gcd, "n\u{2228}n"), (Operator::Exp, "n**n"),
    ] {
        assert_eq!(search.render(&Expr::bin(n, n, op, 1)), text);
    }
}

#[test]
fn a_level_can_be_built_from_the_levels_below() {
    let (whole, found) = wide(true, true);
    let mut c = config(
        vec![("x", vec![1, 2, 3, 4]), ("y", vec![4, 3, 2, 2])],
        vec![5, 5, 5, 6],
        4,
        vec![1, 2, 3],
        OperatorFlags::all(),
    );
    c.reuse_vars = true;
    let (below, _) = solve(c, false);
    assert_eq!(below.next_length(), 5);
    let one = find_expressions(below.cache(), 5, below.shorter(), below.config());
    let two = find_expressions_sequential(below.cache(), 5, below.shorter(), below.config());
    let mut listed: Vec<String> = one.solutions.iter().map(|e| below.render(e)).collect();
    listed.sort();
    assert_eq!(listed, found[4]);
    assert_eq!(one.solutions, two.solutions);
    assert_eq!(one.level.len(), whole.level(5).len());
    assert_eq!(one.level.len(), two.level.len());
    for i in 0..one.level.len() {
        assert_eq!(one.level.key_at(i), two.level.key_at(i));
        assert_eq!(one.level.val_at(i), two.level.val_at(i));
        assert_eq!(one.level.key_at(i), whole.level(5).key_at(i));
    }
}

#[test]
fn the_index_records_the_best_class_of_each_short_output() {
    let (search, _) = wide(false, true);
    let index = search.shorter();
    let mut seen = 0;
    for n in 1..search.next_length() {
        let level = search.level(n);
        for i in 0..level.len() {
            let at = index.find(level.key_at(i)).unwrap();
            assert!(index.val_at(at) >= level.val_at(i).op.prec());
            seen += 1;
        }
    }
    assert!(seen > 0);
    for i in 0..index.len() {
        let best = (1..search.next_length())
            .filter_map(|n| {
                let level = search.level(n);
                level.find(index.key_at(i)).map(|at| level.val_at(at).op.prec())
            })
            .max();
        assert_eq!(best, Some(index.val_at(i)));
    }
}

#[test]
fn outputs_above_the_ceiling_are_not_recorded() {
    let mut c = config(vec![("x", vec![1, 2, 3, 4])], vec![9, 9, 9, 9], 3, vec![1], OperatorFlags::all());
    c.max_cache_length = 1;
    let (search, _) = solve(c, true);
    assert_eq!(search.shorter().len(), 2);
    assert!(search.level(3).find(&vec![2, 4, 6, 8]).is_some());
    assert_eq!(search.shorter().find(&vec![2, 4, 6, 8]), None);
}

#[test]
fn an_equal_class_does_not_save_a_longer_spelling() {
    let mut ops = OperatorFlags::none();
    ops.add = true;
    ops.sub = true;
    ops.neg = true;
    let c = config(vec![("x", vec![1, 2, 3, 4])], vec![9, 9, 9, 9], 4, vec![1], ops);
    let (search, _) = solve(c, true);
    let at = search.level(3).find(&vec![2, 3, 4, 5]).unwrap();
    assert_eq!(search.level(3).val_at(at).op, Operator::Add);
    assert!(search.level(2).find(&vec![-1, -1, -1, -1]).is_some());
    assert_eq!(search.level(4).find(&vec![2, 3, 4, 5]), None);
    assert!(search.level(4).find(&vec![-2, -3, -4, -5]).is_some());
}

#[test]
fn an_undefined_division_yields_no_candidate_unless_an_error_value_stands_in() {
    let mut ops = OperatorFlags::none();
    ops.div1 = true;
    let plain = config(vec![("x", vec![0, 1])], vec![-9, 1], 3, vec![1], ops);
    let (search, found) = solve(plain, true);
    assert_eq!(found[2], texts(&[]));
    assert_eq!(search.level(3).find(&vec![-9, 1]), None);
    let mut total = config(vec![("x", vec![0, 1])], vec![-9, 1], 3, vec![1], ops);
    total.semantics = Semantics { floor_mod: false, error_value: Some(-9) };
    let (_, found) = solve(total, true);
    assert_eq!(found[2], texts(&["1/x", "x/x"]));
}

#[test]
fn division_rounds_as_configured() {
    let mut ops = OperatorFlags::none();
    ops.div1 = true;
    ops.modulo = true;
    let mut down = config(vec![("x", vec![-21, 21])], vec![-6, 5], 3, vec![4], ops);
    down.semantics = Semantics { floor_mod: true, error_value: None };
    let (_, found) = solve(down, true);
    assert_eq!(found[2], texts(&["x/4"]));
    let zero = config(vec![("x", vec![-21, 21])], vec![-5, 5], 3, vec![4], ops);
    let (_, found) = solve(zero, true);
    assert_eq!(found[2], texts(&["x/4"]));
    let rest = config(vec![("x", vec![-21, 21])], vec![-1, 1], 3, vec![4], ops);
    let (_, found) = solve(rest, true);
    assert_eq!(found[2], texts(&["x%4"]));
}
