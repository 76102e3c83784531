//! Building one level from the levels below it, sequentially or on a thread pool.

use crate::cache::{cache_shaped, valid_ref, Cache, Level};
use crate::candidate::{
    candidate_of, covers, level_sound, reported, retained, solutions_sound, Origin, Shorter,
};
use crate::expand::{expand_unit, unit_done, Partial};
use crate::expr::{Expr, ExprRef};
use crate::keep::{handled, lemma_handled_vacuous, lemma_sound_empty, sound};
use crate::merge::merge_partial;
use crate::operator::Operator;
use crate::params::{Config, OutputMap};
use crate::passes::{add_leaves, add_parens, add_unary};
use rayon::iter::{IntoParallelIterator, ParallelIterator};
use vstd::prelude::*;

verus! {

/// The level covers every candidate of the length that is to be retained: per output it
/// holds a candidate of the greatest precedence code among them.
#[verifier::opaque]
pub open spec fn level_complete<M: OutputMap>(
    level: &Level,
    cache: Seq<Level>,
    shorter: &Shorter,
    config: &Config<M>,
    n: int,
) -> bool {
    forall|o: Origin|
        retained(cache, shorter, config, n, o) ==> covers(
            level,
            (#[trigger] candidate_of(cache, config, o)).unwrap(),
        )
}

/// The list holds every candidate of the length whose output matches the goal.
#[verifier::opaque]
pub open spec fn solutions_complete<M: OutputMap>(
    listed: Seq<Expr>,
    cache: Seq<Level>,
    config: &Config<M>,
    n: int,
) -> bool {
    forall|o: Origin|
        reported(cache, config, n, o) ==> listed.contains(
            (#[trigger] candidate_of(cache, config, o)).unwrap().expr,
        )
}

/// What building a level owes: the level is a well-formed map made of retained candidates
/// of the length and covers all of them, and the list is made of the candidates of the
/// length that match the goal and holds all of them.
pub open spec fn level_built<M: OutputMap>(
    level: &Level,
    listed: Seq<Expr>,
    cache: Seq<Level>,
    shorter: &Shorter,
    config: &Config<M>,
    n: int,
) -> bool {
    &&& level.wf()
    &&& level_sound(level, cache, shorter, config, n)
    &&& level_complete(level, cache, shorter, config, n)
    &&& solutions_sound(listed, cache, config, n)
    &&& solutions_complete(listed, cache, config, n)
}

/// Runs the units of work of one right-operand length on the thread pool, one unit for
/// each expression of that length, and hands their results back in the order of the
/// expressions.
///
/// Trusted: `rayon`'s `into_par_iter` on a range, `map` and `collect` into a `Vec`. The
/// contract claims that the vector has one element for each index of the range, in order,
/// and that each element is what the mapped function returns for its index.
#[verifier::external_body]
fn expand_level_parallel<M: OutputMap + Sync>(
    cache: &Cache,
    shorter: &Shorter,
    config: &Config<M>,
    n: usize,
    k: usize,
    count: usize,
) -> (parts: Vec<Partial>)
    requires
        cache_shaped(cache@),
        shorter.wf(),
        cache@.len() == n,
        k < n,
        count == cache@[k as int].keys().len(),
    ensures
        parts@.len() == count,
        forall|i: int|
            0 <= i < count ==> unit_done(
                #[trigger] &parts@[i],
                cache@,
                shorter,
                config,
                n as int,
                ExprRef { len: k, idx: i as usize },
            ),
{
    (0..count).into_par_iter().map(
        |i| expand_unit(cache, shorter, config, n, ExprRef { len: k, idx: i }),
    ).collect()
}

/// Runs the units of work of one right-operand length one after the other.
fn expand_level_sequential<M: OutputMap>(
    cache: &Cache,
    shorter: &Shorter,
    config: &Config<M>,
    n: usize,
    k: usize,
    count: usize,
) -> (parts: Vec<Partial>)
    requires
        cache_shaped(cache@),
        shorter.wf(),
        cache@.len() == n,
        k < n,
        count == cache@[k as int].keys().len(),
    ensures
        parts@.len() == count,
        forall|i: int|
            0 <= i < count ==> unit_done(
                #[trigger] &parts@[i],
                cache@,
                shorter,
                config,
                n as int,
                ExprRef { len: k, idx: i as usize },
            ),
{
    let mut parts: Vec<Partial> = Vec::new();
    let mut i: usize = 0;
    while i < count
        invariant
            i <= count,
            cache_shaped(cache@),
            shorter.wf(),
            cache@.len() == n,
            k < n,
            count == cache@[k as int].keys().len(),
            parts@.len() == i,
            forall|j: int|
                0 <= j < i ==> unit_done(
                    #[trigger] &parts@[j],
                    cache@,
                    shorter,
                    config,
                    n as int,
                    ExprRef { len: k, idx: j as usize },
                ),
        decreases count - i,
    {
        let part = expand_unit(cache, shorter, config, n, ExprRef { len: k, idx: i });
        parts.push(part);
        i = i + 1;
    }
    parts
}

/// Folds the results of the units of one right-operand length into the level, in order.
fn merge_parts<M: OutputMap>(
    level: &mut Level,
    solutions: &mut Vec<Expr>,
    parts: &Vec<Partial>,
    Ghost(cache): Ghost<Seq<Level>>,
    shorter: &Shorter,
    config: &Config<M>,
    n: usize,
    k: usize,
)
    requires
        sound(&*old(level), old(solutions)@, cache, shorter, config, n as int),
        forall|i: int|
            0 <= i < parts@.len() ==> unit_done(
                #[trigger] &parts@[i],
                cache,
                shorter,
                config,
                n as int,
                ExprRef { len: k, idx: i as usize },
            ),
        forall|l: ExprRef, r: ExprRef, op: Operator|
            r.len < k ==> #[trigger] handled(
                &*old(level),
                old(solutions)@,
                cache,
                shorter,
                config,
                n as int,
                Origin::Binary { l, r, op },
            ),
    ensures
        sound(&*final(level), final(solutions)@, cache, shorter, config, n as int),
        forall|l: ExprRef, r: ExprRef, op: Operator|
            r.len < k || (r.len == k && r.idx < parts@.len()) ==> #[trigger] handled(
                &*final(level),
                final(solutions)@,
                cache,
                shorter,
                config,
                n as int,
                Origin::Binary { l, r, op },
            ),
{
    let mut i: usize = 0;
    while i < parts.len()
        invariant
            i <= parts@.len(),
            sound(&*level, solutions@, cache, shorter, config, n as int),
            forall|j: int|
                0 <= j < parts@.len() ==> unit_done(
                    #[trigger] &parts@[j],
                    cache,
                    shorter,
                    config,
                    n as int,
                    ExprRef { len: k, idx: j as usize },
                ),
            forall|l: ExprRef, r: ExprRef, op: Operator|
                r.len < k || (r.len == k && r.idx < i) ==> #[trigger] handled(
                    &*level,
                    solutions@,
                    cache,
                    shorter,
                    config,
                    n as int,
                    Origin::Binary { l, r, op },
                ),
        decreases parts@.len() - i,
    {
        let part = &parts[i];
        proof {
            assert(unit_done(
                &parts@[i as int],
                cache,
                shorter,
                config,
                n as int,
                ExprRef { len: k, idx: i },
            ));
        }
        merge_partial(level, solutions, part, Ghost(cache), shorter, config, Ghost(n as int));
        proof {
            assert forall|l: ExprRef, r: ExprRef, op: Operator|
                r.len < k || (r.len == k && r.idx < i + 1) implies #[trigger] handled(
                &*level,
                solutions@,
                cache,
                shorter,
                config,
                n as int,
                Origin::Binary { l, r, op },
            ) by {
                if r.len == k && r.idx == i {
                    assert(r == ExprRef { len: k, idx: i });
                    assert(handled(
                        &part.level,
                        part.solutions@,
                        cache,
                        shorter,
                        config,
                        n as int,
                        Origin::Binary { l, r, op },
                    ));
                }
            }
        }
        i = i + 1;
    }
}

/// The level and the list that have dealt with every way of making a candidate are
/// complete.
proof fn lemma_all_handled<M: OutputMap>(
    built: &Partial,
    cache: Seq<Level>,
    shorter: &Shorter,
    config: &Config<M>,
    n: int,
)
    requires
        sound(&built.level, built.solutions@, cache, shorter, config, n),
        forall|o: Origin| #[trigger]
            handled(&built.level, built.solutions@, cache, shorter, config, n, o),
    ensures
        level_built(&built.level, built.solutions@, cache, shorter, config, n),
{
    reveal(sound);
    reveal(level_complete);
    reveal(solutions_complete);
    assert forall|o: Origin| retained(cache, shorter, config, n, o) implies covers(
        &built.level,
        (#[trigger] candidate_of(cache, config, o)).unwrap(),
    ) by {
        assert(handled(&built.level, built.solutions@, cache, shorter, config, n, o));
        reveal(handled);
    }
    assert forall|o: Origin| reported(cache, config, n, o) implies built.solutions@.contains(
        (#[trigger] candidate_of(cache, config, o)).unwrap().expr,
    ) by {
        assert(handled(&built.level, built.solutions@, cache, shorter, config, n, o));
        reveal(handled);
    }
}

/// Finishes a level whose binary candidates are in: adds the bracketed and the prefixed
/// candidates and the leaves.
fn finish_level<M: OutputMap>(
    level: Level,
    solutions: Vec<Expr>,
    cache: &Cache,
    shorter: &Shorter,
    config: &Config<M>,
    n: usize,
) -> (built: Partial)
    requires
        sound(&level, solutions@, cache@, shorter, config, n as int),
        cache_shaped(cache@),
        shorter.wf(),
        config.valid(),
        cache@.len() == n,
        forall|l: ExprRef, r: ExprRef, op: Operator|
            r.len < n ==> #[trigger] handled(
                &level,
                solutions@,
                cache@,
                shorter,
                config,
                n as int,
                Origin::Binary { l, r, op },
            ),
    ensures
        level_built(&built.level, built.solutions@, cache@, shorter, config, n as int),
{
    let mut level = level;
    let mut solutions = solutions;
    add_parens(&mut level, &mut solutions, cache, shorter, config, n);
    add_unary(&mut level, &mut solutions, cache, shorter, config, n);
    add_leaves(&mut level, &mut solutions, Ghost(cache@), shorter, config, n);
    let built = Partial { level, solutions };
    proof {
        assert forall|o: Origin| #[trigger]
            handled(&built.level, built.solutions@, cache@, shorter, config, n as int, o) by {
            match o {
                Origin::Binary { l, r, op } => {
                    if !valid_ref(cache@, r) {
                        lemma_handled_vacuous(
                            &built.level,
                            built.solutions@,
                            cache@,
                            shorter,
                            config,
                            n as int,
                            o,
                        );
                    }
                },
                Origin::Unary { r, op } => {},
                Origin::Parens { r } => {},
                Origin::Variable { index } => {},
                Origin::Constant { value } => {},
            }
        }
        lemma_all_handled(&built, cache@, shorter, config, n as int);
    }
    built
}

/// Builds the level of length `n` from the levels below it, with the units of work of the
/// binary candidates spread over the thread pool.
pub fn find_expressions<M: OutputMap + Sync>(
    cache: &Cache,
    n: usize,
    shorter: &Shorter,
    config: &Config<M>,
) -> (built: Partial)
    requires
        cache_shaped(cache@),
        shorter.wf(),
        config.valid(),
        cache@.len() == n,
    ensures
        level_built(&built.level, built.solutions@, cache@, shorter, config, n as int),
{
    let mut level = Level::new();
    let mut solutions: Vec<Expr> = Vec::new();
    proof {
        lemma_sound_empty(&level, cache@, shorter, config, n as int);
        lemma_no_right_operand(&level, solutions@, cache@, shorter, config, n as int);
    }
    let mut k: usize = 1;
    while k < n
        invariant
            1 <= k,
            n >= 1,
            k <= n,
            cache_shaped(cache@),
            shorter.wf(),
            cache@.len() == n,
            sound(&level, solutions@, cache@, shorter, config, n as int),
            forall|l: ExprRef, r: ExprRef, op: Operator|
                r.len < k ==> #[trigger] handled(
                    &level,
                    solutions@,
                    cache@,
                    shorter,
                    config,
                    n as int,
                    Origin::Binary { l, r, op },
                ),
        decreases n - k,
    {
        let count = cache[k].len();
        let parts = expand_level_parallel(cache, shorter, config, n, k, count);
        merge_parts(&mut level, &mut solutions, &parts, Ghost(cache@), shorter, config, n, k);
        proof {
            lemma_right_operands_done(&level, solutions@, cache@, shorter, config, n as int, k);
        }
        k = k + 1;
    }
    finish_level(level, solutions, cache, shorter, config, n)
}

/// Builds the level of length `n` from the levels below it on the calling thread.
pub fn find_expressions_sequential<M: OutputMap>(
    cache: &Cache,
    n: usize,
    shorter: &Shorter,
    config: &Config<M>,
) -> (built: Partial)
    requires
        cache_shaped(cache@),
        shorter.wf(),
        config.valid(),
        cache@.len() == n,
    ensures
        level_built(&built.level, built.solutions@, cache@, shorter, config, n as int),
{
    let mut level = Level::new();
    let mut solutions: Vec<Expr> = Vec::new();
    proof {
        lemma_sound_empty(&level, cache@, shorter, config, n as int);
        lemma_no_right_operand(&level, solutions@, cache@, shorter, config, n as int);
    }
    let mut k: usize = 1;
    while k < n
        invariant
            1 <= k,
            n >= 1,
            k <= n,
            cache_shaped(cache@),
            shorter.wf(),
            cache@.len() == n,
            sound(&level, solutions@, cache@, shorter, config, n as int),
            forall|l: ExprRef, r: ExprRef, op: Operator|
                r.len < k ==> #[trigger] handled(
                    &level,
                    solutions@,
                    cache@,
                    shorter,
                    config,
                    n as int,
                    Origin::Binary { l, r, op },
                ),
        decreases n - k,
    {
        let count = cache[k].len();
        let parts = expand_level_sequential(cache, shorter, config, n, k, count);
        merge_parts(&mut level, &mut solutions, &parts, Ghost(cache@), shorter, config, n, k);
        proof {
            lemma_right_operands_done(&level, solutions@, cache@, shorter, config, n as int, k);
        }
        k = k + 1;
    }
    finish_level(level, solutions, cache, shorter, config, n)
}

/// No expression has length zero, so no binary candidate has a right operand of that
/// length.
proof fn lemma_no_right_operand<M: OutputMap>(
    level: &Level,
    listed: Seq<Expr>,
    cache: Seq<Level>,
    shorter: &Shorter,
    config: &Config<M>,
    n: int,
)
    requires
        cache_shaped(cache),
    ensures
        forall|l: ExprRef, r: ExprRef, op: Operator|
            r.len < 1 ==> #[trigger] handled(
                level,
                listed,
                cache,
                shorter,
                config,
                n,
                Origin::Binary { l, r, op },
            ),
{
    assert forall|l: ExprRef, r: ExprRef, op: Operator| r.len < 1 implies #[trigger] handled(
        level,
        listed,
        cache,
        shorter,
        config,
        n,
        Origin::Binary { l, r, op },
    ) by {
        lemma_handled_vacuous(level, listed, cache, shorter, config, n, Origin::Binary { l, r, op });
    }
}

/// Once the units of every expression of a length are folded in, every binary candidate
/// with a right operand of that length is dealt with.
proof fn lemma_right_operands_done<M: OutputMap>(
    level: &Level,
    listed: Seq<Expr>,
    cache: Seq<Level>,
    shorter: &Shorter,
    config: &Config<M>,
    n: int,
    k: usize,
)
    requires
        k < cache.len(),
        forall|l: ExprRef, r: ExprRef, op: Operator|
            r.len < k || (r.len == k && r.idx < cache[k as int].keys().len()) ==> #[trigger] handled(
                level,
                listed,
                cache,
                shorter,
                config,
                n,
                Origin::Binary { l, r, op },
            ),
    ensures
        forall|l: ExprRef, r: ExprRef, op: Operator|
            r.len < k + 1 ==> #[trigger] handled(
                level,
                listed,
                cache,
                shorter,
                config,
                n,
                Origin::Binary { l, r, op },
            ),
{
    assert forall|l: ExprRef, r: ExprRef, op: Operator| r.len < k + 1 implies #[trigger] handled(
        level,
        listed,
        cache,
        shorter,
        config,
        n,
        Origin::Binary { l, r, op },
    ) by {
        if r.len == k && !(r.idx < cache[k as int].keys().len()) {
            lemma_handled_vacuous(
                level,
                listed,
                cache,
                shorter,
                config,
                n,
                Origin::Binary { l, r, op },
            );
        }
    }
}

} // verus!
