//! Brackets, prefix operators and leaves: the candidates that are not binary.

use crate::cache::{cache_shaped, expr_at, output_at, valid_ref, Cache, Level};
use crate::candidate::{candidate_of, origin_len, positive_integer_length, Origin, Shorter};
use crate::expand::try_unary;
use crate::expr::{Expr, ExprRef};
use crate::keep::{
    handled, keeps_handled, lemma_grown_keeps, lemma_handled_vacuous, lemma_placed, place, sound,
};
use crate::num::Num;
use crate::operator::{Operator, PREC_PARENS};
use crate::params::{Config, OutputMap};
use crate::vector::{vec_constant, vec_copy, Vector};
use vstd::prelude::*;

verus! {

/// Places one bracketed candidate or leaf that comes about in a given way.
fn place_candidate<M: OutputMap>(
    level: &mut Level,
    solutions: &mut Vec<Expr>,
    output: Vector,
    expr: Expr,
    Ghost(cache): Ghost<Seq<Level>>,
    shorter: &Shorter,
    config: &Config<M>,
    n: usize,
    Ghost(o): Ghost<Origin>,
)
    requires
        sound(&*old(level), old(solutions)@, cache, shorter, config, n as int),
        !(o is Binary || o is Unary),
        origin_len(o) == n,
        candidate_of(cache, config, o) is Some,
        candidate_of(cache, config, o).unwrap().output == output@,
        candidate_of(cache, config, o).unwrap().expr == expr,
    ensures
        sound(&*final(level), final(solutions)@, cache, shorter, config, n as int),
        keeps_handled(
            &*old(level),
            old(solutions)@,
            &*final(level),
            final(solutions)@,
            cache,
            shorter,
            config,
            n as int,
        ),
        handled(&*final(level), final(solutions)@, cache, shorter, config, n as int, o),
{
    let ghost before = *level;
    let ghost listed = solutions@;
    proof {
        reveal(sound);
    }
    place(level, solutions, output, expr, config);
    proof {
        lemma_placed(&before, listed, &*level, solutions@, cache, shorter, config, n as int, o);
        lemma_grown_keeps(&before, listed, &*level, solutions@, cache, shorter, config, n as int);
    }
}

/// Puts every expression two shorter that gains from brackets into brackets.
pub(crate) fn add_parens<M: OutputMap>(
    level: &mut Level,
    solutions: &mut Vec<Expr>,
    cache: &Cache,
    shorter: &Shorter,
    config: &Config<M>,
    n: usize,
)
    requires
        sound(&*old(level), old(solutions)@, cache@, shorter, config, n as int),
        cache_shaped(cache@),
        cache@.len() == n,
    ensures
        sound(&*final(level), final(solutions)@, cache@, shorter, config, n as int),
        keeps_handled(
            &*old(level),
            old(solutions)@,
            &*final(level),
            final(solutions)@,
            cache@,
            shorter,
            config,
            n as int,
        ),
        forall|r: ExprRef| #[trigger]
            handled(
                &*final(level),
                final(solutions)@,
                cache@,
                shorter,
                config,
                n as int,
                Origin::Parens { r },
            ),
{
    let ghost start = *level;
    let ghost listed = solutions@;
    if n >= 3 {
        let from = n - 2;
        let count = cache[from].len();
        let mut i: usize = 0;
        while i < count
            invariant
                i <= count,
                cache_shaped(cache@),
                cache@.len() == n,
                from + 2 == n,
                count == cache@[from as int].keys().len(),
                sound(&*level, solutions@, cache@, shorter, config, n as int),
                keeps_handled(
                    &start,
                    listed,
                    &*level,
                    solutions@,
                    cache@,
                    shorter,
                    config,
                    n as int,
                ),
                forall|r: ExprRef|
                    r.len == from && r.idx < i ==> #[trigger] handled(
                        &*level,
                        solutions@,
                        cache@,
                        shorter,
                        config,
                        n as int,
                        Origin::Parens { r },
                    ),
            decreases count - i,
        {
            let r = ExprRef { len: from, idx: i };
            let e = expr_at(cache, r);
            if e.prec() < PREC_PARENS {
                let out = vec_copy(output_at(cache, r));
                place_candidate(
                    level,
                    solutions,
                    out,
                    Expr::parens(&e, r),
                    Ghost(cache@),
                    shorter,
                    config,
                    n,
                    Ghost(Origin::Parens { r }),
                );
            } else {
                proof {
                    lemma_handled_vacuous(
                        &*level,
                        solutions@,
                        cache@,
                        shorter,
                        config,
                        n as int,
                        Origin::Parens { r },
                    );
                }
            }
            i = i + 1;
        }
    }
    proof {
        assert forall|r: ExprRef| #[trigger]
            handled(&*level, solutions@, cache@, shorter, config, n as int, Origin::Parens { r }) by {
            if !(n >= 3 && r.len == n - 2 && valid_ref(cache@, r)) {
                lemma_handled_vacuous(
                    &*level,
                    solutions@,
                    cache@,
                    shorter,
                    config,
                    n as int,
                    Origin::Parens { r },
                );
            }
        }
    }
}

/// Puts each prefix operator before every expression one shorter that admits it.
pub(crate) fn add_unary<M: OutputMap>(
    level: &mut Level,
    solutions: &mut Vec<Expr>,
    cache: &Cache,
    shorter: &Shorter,
    config: &Config<M>,
    n: usize,
)
    requires
        sound(&*old(level), old(solutions)@, cache@, shorter, config, n as int),
        cache_shaped(cache@),
        shorter.wf(),
        cache@.len() == n,
    ensures
        sound(&*final(level), final(solutions)@, cache@, shorter, config, n as int),
        keeps_handled(
            &*old(level),
            old(solutions)@,
            &*final(level),
            final(solutions)@,
            cache@,
            shorter,
            config,
            n as int,
        ),
        forall|r: ExprRef, op: Operator| #[trigger]
            handled(
                &*final(level),
                final(solutions)@,
                cache@,
                shorter,
                config,
                n as int,
                Origin::Unary { r, op },
            ),
{
    let ghost start = *level;
    let ghost listed = solutions@;
    if n >= 2 {
        let from = n - 1;
        let count = cache[from].len();
        let mut i: usize = 0;
        while i < count
            invariant
                i <= count,
                cache_shaped(cache@),
                shorter.wf(),
                cache@.len() == n,
                from + 1 == n,
                count == cache@[from as int].keys().len(),
                sound(&*level, solutions@, cache@, shorter, config, n as int),
                keeps_handled(
                    &start,
                    listed,
                    &*level,
                    solutions@,
                    cache@,
                    shorter,
                    config,
                    n as int,
                ),
                forall|r: ExprRef, op: Operator|
                    r.len == from && r.idx < i && (op == Operator::BitNeg || op == Operator::Neg)
                        ==> #[trigger] handled(
                        &*level,
                        solutions@,
                        cache@,
                        shorter,
                        config,
                        n as int,
                        Origin::Unary { r, op },
                    ),
            decreases count - i,
        {
            let r = ExprRef { len: from, idx: i };
            try_unary(level, solutions, cache, shorter, config, n, r, Operator::BitNeg);
            try_unary(level, solutions, cache, shorter, config, n, r, Operator::Neg);
            i = i + 1;
        }
    }
    proof {
        assert forall|r: ExprRef, op: Operator| #[trigger]
            handled(
                &*level,
                solutions@,
                cache@,
                shorter,
                config,
                n as int,
                Origin::Unary { r, op },
            ) by {
            if !(n >= 2 && r.len == n - 1 && valid_ref(cache@, r) && (op == Operator::BitNeg || op
                == Operator::Neg)) {
                lemma_handled_vacuous(
                    &*level,
                    solutions@,
                    cache@,
                    shorter,
                    config,
                    n as int,
                    Origin::Unary { r, op },
                );
            }
        }
    }
}

/// Places the leaves of the length: the input variables at length one, and each constant
/// at the length of its decimal text.
pub(crate) fn add_leaves<M: OutputMap>(
    level: &mut Level,
    solutions: &mut Vec<Expr>,
    Ghost(cache): Ghost<Seq<Level>>,
    shorter: &Shorter,
    config: &Config<M>,
    n: usize,
)
    requires
        sound(&*old(level), old(solutions)@, cache, shorter, config, n as int),
        config.valid(),
    ensures
        sound(&*final(level), final(solutions)@, cache, shorter, config, n as int),
        keeps_handled(
            &*old(level),
            old(solutions)@,
            &*final(level),
            final(solutions)@,
            cache,
            shorter,
            config,
            n as int,
        ),
        forall|index: usize| #[trigger]
            handled(
                &*final(level),
                final(solutions)@,
                cache,
                shorter,
                config,
                n as int,
                Origin::Variable { index },
            ),
        forall|value: Num| #[trigger]
            handled(
                &*final(level),
                final(solutions)@,
                cache,
                shorter,
                config,
                n as int,
                Origin::Constant { value },
            ),
{
    let ghost start = *level;
    let ghost listed = solutions@;
    if n == 1 {
        let mut i: usize = 0;
        while i < config.inputs.len()
            invariant
                i <= config.inputs@.len(),
                n == 1,
                config.valid(),
                sound(&*level, solutions@, cache, shorter, config, n as int),
                keeps_handled(&start, listed, &*level, solutions@, cache, shorter, config, n as int),
                forall|index: usize|
                    index < i ==> #[trigger] handled(
                        &*level,
                        solutions@,
                        cache,
                        shorter,
                        config,
                        n as int,
                        Origin::Variable { index },
                    ),
            decreases config.inputs@.len() - i,
        {
            let out = vec_copy(&config.inputs[i].vec);
            place_candidate(
                level,
                solutions,
                out,
                Expr::variable(i),
                Ghost(cache),
                shorter,
                config,
                n,
                Ghost(Origin::Variable { index: i }),
            );
            i = i + 1;
        }
    }
    proof {
        assert forall|index: usize| #[trigger]
            handled(
                &*level,
                solutions@,
                cache,
                shorter,
                config,
                n as int,
                Origin::Variable { index },
            ) by {
            if !(n == 1 && index < config.inputs@.len()) {
                lemma_handled_vacuous(
                    &*level,
                    solutions@,
                    cache,
                    shorter,
                    config,
                    n as int,
                    Origin::Variable { index },
                );
            }
        }
    }
    let dim = config.goal.len();
    let mut j: usize = 0;
    while j < config.literals.len()
        invariant
            j <= config.literals@.len(),
            dim == config.dim(),
            sound(&*level, solutions@, cache, shorter, config, n as int),
            keeps_handled(&start, listed, &*level, solutions@, cache, shorter, config, n as int),
            forall|index: usize| #[trigger]
                handled(
                    &*level,
                    solutions@,
                    cache,
                    shorter,
                    config,
                    n as int,
                    Origin::Variable { index },
                ),
            forall|value: Num|
                config.literals@.take(j as int).contains(value) ==> #[trigger] handled(
                    &*level,
                    solutions@,
                    cache,
                    shorter,
                    config,
                    n as int,
                    Origin::Constant { value },
                ),
        decreases config.literals@.len() - j,
    {
        let v = config.literals[j];
        let ghost o = Origin::Constant { value: v };
        proof {
            assert(config.literals@[j as int] == v);
        }
        if positive_integer_length(v) == n {
            place_candidate(
                level,
                solutions,
                vec_constant(v, dim),
                Expr::literal(v),
                Ghost(cache),
                shorter,
                config,
                n,
                Ghost(o),
            );
        } else {
            proof {
                lemma_handled_vacuous(&*level, solutions@, cache, shorter, config, n as int, o);
            }
        }
        proof {
            let shorter_part = config.literals@.take(j as int);
            let longer_part = config.literals@.take(j + 1);
            assert(longer_part =~= shorter_part.push(v));
            assert forall|value: Num| longer_part.contains(value) implies #[trigger] handled(
                &*level,
                solutions@,
                cache,
                shorter,
                config,
                n as int,
                Origin::Constant { value },
            ) by {
                if value != v {
                    let at = choose|at: int| 0 <= at < longer_part.len() && longer_part[at] == value;
                    assert(shorter_part[at] == value);
                }
            }
        }
        j = j + 1;
    }
    proof {
        assert(config.literals@.take(j as int) =~= config.literals@);
    }
    let top: i64 = config.max_literal as i64;
    let mut next: i64 = 1;
    while next <= top
        invariant
            1 <= next <= top + 1,
            top == config.max_literal,
            dim == config.dim(),
            sound(&*level, solutions@, cache, shorter, config, n as int),
            keeps_handled(&start, listed, &*level, solutions@, cache, shorter, config, n as int),
            forall|index: usize| #[trigger]
                handled(
                    &*level,
                    solutions@,
                    cache,
                    shorter,
                    config,
                    n as int,
                    Origin::Variable { index },
                ),
            forall|value: Num|
                config.literals@.contains(value) || 1 <= value < next ==> #[trigger] handled(
                    &*level,
                    solutions@,
                    cache,
                    shorter,
                    config,
                    n as int,
                    Origin::Constant { value },
                ),
        decreases top - next + 1,
    {
        let v: Num = next as Num;
        let ghost o = Origin::Constant { value: v };
        if positive_integer_length(v) == n {
            place_candidate(
                level,
                solutions,
                vec_constant(v, dim),
                Expr::literal(v),
                Ghost(cache),
                shorter,
                config,
                n,
                Ghost(o),
            );
        } else {
            proof {
                lemma_handled_vacuous(&*level, solutions@, cache, shorter, config, n as int, o);
            }
        }
        next = next + 1;
    }
    proof {
        assert forall|value: Num| #[trigger]
            handled(
                &*level,
                solutions@,
                cache,
                shorter,
                config,
                n as int,
                Origin::Constant { value },
            ) by {
            if !config.is_literal(value) {
                lemma_handled_vacuous(
                    &*level,
                    solutions@,
                    cache,
                    shorter,
                    config,
                    n as int,
                    Origin::Constant { value },
                );
            }
        }
    }
}

} // verus!
