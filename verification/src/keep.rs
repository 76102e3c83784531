//! The keep-best rule, and what saving a candidate does to a level and its solutions.

use crate::cache::Level;
use crate::candidate::{
    candidate_of, covers, level_sound, origin_len, pruned, reported, retained, solutions_sound,
    Candidate, Origin, Shorter,
};
use crate::expr::Expr;
use crate::num::Num;
use crate::operator::Operator;
use crate::params::{Config, Matcher, OutputMap};
use crate::vector::Vector;
use vstd::prelude::*;

verus! {

/// The keep-best rule: an output that is new to the level goes in with its expression; for
/// an output the level holds, the expression replaces the stored one only where its
/// precedence code is strictly greater.
pub open spec fn keep_best(before: &Level, output: Seq<Num>, expr: Expr, after: &Level) -> bool {
    if !before.contains(output) {
        after.keys() == before.keys().push(output) && after.vals() == before.vals().push(expr)
    } else if expr.op.spec_code() > before.value_of(output).op.spec_code() {
        after.keys() == before.keys() && after.vals() == before.vals().update(
            before.index_of(output),
            expr,
        )
    } else {
        after.keys() == before.keys() && after.vals() == before.vals()
    }
}

/// A later state of a level extends an earlier one where it covers every candidate the
/// earlier one covered.
#[verifier::opaque]
pub open spec fn extends(before: &Level, after: &Level) -> bool {
    forall|c: Candidate| #[trigger] covers(before, c) ==> covers(after, c)
}

/// Every entry of the later level is an entry of the earlier one or the given pair.
pub open spec fn entries_from(before: &Level, output: Seq<Num>, expr: Expr, after: &Level) -> bool {
    forall|i: int|
        0 <= i < after.keys().len() ==> (after.keys()[i] == output && #[trigger] after.vals()[i]
            == expr) || (i < before.keys().len() && after.keys()[i] == before.keys()[i]
            && after.vals()[i] == before.vals()[i])
}

/// What the keep-best rule means for a level: nothing covered is lost, the new pair is
/// covered, and nothing but the new pair comes in.
pub proof fn lemma_keep_best(before: &Level, output: Seq<Num>, expr: Expr, after: &Level)
    requires
        before.wf(),
        after.wf(),
        keep_best(before, output, expr, after),
    ensures
        extends(before, after),
        covers(after, Candidate { output, expr }),
        entries_from(before, output, expr, after),
{
    reveal(extends);
    before.lemma_wf();
    after.lemma_wf();
    if !before.contains(output) {
        let last = before.keys().len() as int;
        assert(after.keys()[last] == output);
        assert forall|c: Candidate| #[trigger] covers(before, c) implies covers(after, c) by {
            let i = before.index_of(c.output);
            assert(before.keys()[i] == c.output);
            assert(after.keys()[i] == c.output);
        }
    } else {
        let at = before.index_of(output);
        assert(before.keys()[at] == output);
        assert(after.keys()[at] == output);
        assert forall|c: Candidate| #[trigger] covers(before, c) implies covers(after, c) by {
            let i = before.index_of(c.output);
            assert(before.keys()[i] == c.output);
            assert(after.keys()[i] == c.output);
        }
    }
}

/// Puts an expression into a level by the keep-best rule.
pub fn insert_to_level(level: &mut Level, output: Vector, expr: Expr)
    requires
        old(level).wf(),
    ensures
        final(level).wf(),
        keep_best(&*old(level), output@, expr, &*final(level)),
{
    match level.find(&output) {
        Some(i) => {
            if expr.op.code() > level.val_at(i).op.code() {
                level.set_val(i, expr);
            }
        },
        None => {
            level.push_new(output, expr);
        },
    }
}

/// What saving a composed candidate does: one that matches the goal is listed as a
/// solution and kept out of the level; one that is pruned is dropped; any other goes into
/// the level by the keep-best rule.
pub open spec fn saved<M: OutputMap>(
    before: &Level,
    listed: Seq<Expr>,
    output: Seq<Num>,
    expr: Expr,
    shorter: &Shorter,
    config: &Config<M>,
    after: &Level,
    listed_after: Seq<Expr>,
) -> bool {
    if config.is_goal(output) {
        &&& listed_after == listed.push(expr)
        &&& after.keys() == before.keys()
        &&& after.vals() == before.vals()
    } else if pruned(shorter, Candidate { output, expr }) {
        &&& listed_after == listed
        &&& after.keys() == before.keys()
        &&& after.vals() == before.vals()
    } else {
        &&& listed_after == listed
        &&& keep_best(before, output, expr, after)
    }
}

/// Saves a composed candidate: reports it, drops it, or puts it into the level.
pub fn save<M: OutputMap>(
    level: &mut Level,
    solutions: &mut Vec<Expr>,
    output: Vector,
    expr: Expr,
    shorter: &Shorter,
    config: &Config<M>,
)
    requires
        old(level).wf(),
        shorter.wf(),
    ensures
        final(level).wf(),
        saved(
            &*old(level),
            old(solutions)@,
            output@,
            expr,
            shorter,
            config,
            &*final(level),
            final(solutions)@,
        ),
{
    if Matcher::match_all(config, &output, &expr) {
        solutions.push(expr);
        return ;
    }
    match shorter.find(&output) {
        Some(i) => {
            if shorter.val_at(i) >= expr.prec() {
                return ;
            }
        },
        None => {},
    }
    insert_to_level(level, output, expr);
}

/// A level and a list of solutions have dealt with a way of making a candidate where the
/// level covers the candidate if it is to be retained and the list holds its expression if
/// it is to be reported.
#[verifier::opaque]
pub open spec fn handled<M: OutputMap>(
    level: &Level,
    listed: Seq<Expr>,
    cache: Seq<Level>,
    shorter: &Shorter,
    config: &Config<M>,
    n: int,
    o: Origin,
) -> bool {
    &&& retained(cache, shorter, config, n, o) ==> covers(
        level,
        candidate_of(cache, config, o).unwrap(),
    )
    &&& reported(cache, config, n, o) ==> listed.contains(candidate_of(cache, config, o).unwrap().expr)
}

/// The level and the list are made of candidates of the length only.
#[verifier::opaque]
pub open spec fn sound<M: OutputMap>(
    level: &Level,
    listed: Seq<Expr>,
    cache: Seq<Level>,
    shorter: &Shorter,
    config: &Config<M>,
    n: int,
) -> bool {
    level.wf() && level_sound(level, cache, shorter, config, n) && solutions_sound(
        listed,
        cache,
        config,
        n,
    )
}

/// The later level and list hold all that the earlier ones held.
#[verifier::opaque]
pub open spec fn grown(
    before: &Level,
    listed: Seq<Expr>,
    after: &Level,
    listed_after: Seq<Expr>,
) -> bool {
    extends(before, after) && listed.is_prefix_of(listed_after)
}

/// What was dealt with stays dealt with as the level and the list grow.
pub proof fn lemma_handled_persists<M: OutputMap>(
    before: &Level,
    listed: Seq<Expr>,
    after: &Level,
    listed_after: Seq<Expr>,
    cache: Seq<Level>,
    shorter: &Shorter,
    config: &Config<M>,
    n: int,
    o: Origin,
)
    requires
        grown(before, listed, after, listed_after),
        handled(before, listed, cache, shorter, config, n, o),
    ensures
        handled(after, listed_after, cache, shorter, config, n, o),
{
    reveal(handled);
    reveal(grown);
    reveal(extends);
    if reported(cache, config, n, o) {
        let e = candidate_of(cache, config, o).unwrap().expr;
        let i = choose|i: int| 0 <= i < listed.len() && listed[i] == e;
        assert(listed_after[i] == e);
    }
}

/// Whatever the earlier level and list had dealt with, the later ones have dealt with.
pub open spec fn keeps_handled<M: OutputMap>(
    before: &Level,
    listed: Seq<Expr>,
    after: &Level,
    listed_after: Seq<Expr>,
    cache: Seq<Level>,
    shorter: &Shorter,
    config: &Config<M>,
    n: int,
) -> bool {
    forall|o: Origin|
        handled(before, listed, cache, shorter, config, n, o) ==> #[trigger] handled(
            after,
            listed_after,
            cache,
            shorter,
            config,
            n,
            o,
        )
}

/// A level and a list that grow keep dealing with whatever they had dealt with.
pub proof fn lemma_grown_keeps<M: OutputMap>(
    before: &Level,
    listed: Seq<Expr>,
    after: &Level,
    listed_after: Seq<Expr>,
    cache: Seq<Level>,
    shorter: &Shorter,
    config: &Config<M>,
    n: int,
)
    requires
        grown(before, listed, after, listed_after),
    ensures
        keeps_handled(before, listed, after, listed_after, cache, shorter, config, n),
{
    assert forall|o: Origin|
        handled(before, listed, cache, shorter, config, n, o) implies handled(
        after,
        listed_after,
        cache,
        shorter,
        config,
        n,
        o,
    ) by {
        lemma_handled_persists(before, listed, after, listed_after, cache, shorter, config, n, o);
    }
}

/// Growth carries over from step to step.
pub proof fn lemma_grown_trans(
    a: &Level,
    la: Seq<Expr>,
    b: &Level,
    lb: Seq<Expr>,
    c: &Level,
    lc: Seq<Expr>,
)
    requires
        grown(a, la, b, lb),
        grown(b, lb, c, lc),
    ensures
        grown(a, la, c, lc),
{
    reveal(grown);
    reveal(extends);
    assert forall|x: Candidate| #[trigger] covers(a, x) implies covers(c, x) by {
        assert(covers(b, x));
    }
}

/// Saving a candidate of the length keeps the level and the list sound, loses nothing, and
/// deals with the way the candidate came about.
pub proof fn lemma_saved<M: OutputMap>(
    before: &Level,
    listed: Seq<Expr>,
    after: &Level,
    listed_after: Seq<Expr>,
    cache: Seq<Level>,
    shorter: &Shorter,
    config: &Config<M>,
    n: int,
    o: Origin,
)
    requires
        sound(before, listed, cache, shorter, config, n),
        after.wf(),
        o is Binary || o is Unary,
        origin_len(o) == n,
        candidate_of(cache, config, o) is Some,
        saved(
            before,
            listed,
            candidate_of(cache, config, o).unwrap().output,
            candidate_of(cache, config, o).unwrap().expr,
            shorter,
            config,
            after,
            listed_after,
        ),
    ensures
        sound(after, listed_after, cache, shorter, config, n),
        grown(before, listed, after, listed_after),
        handled(after, listed_after, cache, shorter, config, n, o),
{
    reveal(handled);
    reveal(grown);
    reveal(sound);
    reveal(extends);
    reveal(level_sound);
    reveal(solutions_sound);
    let c = candidate_of(cache, config, o).unwrap();
    if config.is_goal(c.output) {
        assert(listed_after[listed.len() as int] == c.expr);
        assert forall|i: int| 0 <= i < listed_after.len() implies exists|o2: Origin|
            reported(cache, config, n, o2) && (#[trigger] candidate_of(cache, config, o2)).unwrap().expr
                == #[trigger] listed_after[i] by {
            if i < listed.len() {
                assert(listed_after[i] == listed[i]);
            } else {
                assert(reported(cache, config, n, o) && candidate_of(cache, config, o).unwrap().expr
                    == listed_after[i]);
            }
        }
    } else if pruned(shorter, c) {
    } else {
        lemma_keep_best(before, c.output, c.expr, after);
        assert(c == Candidate { output: c.output, expr: c.expr });
        assert forall|i: int| 0 <= i < after.keys().len() implies exists|o2: Origin|
            retained(cache, shorter, config, n, o2) && #[trigger] candidate_of(cache, config, o2)
                == Some(Candidate { output: after.keys()[i], expr: #[trigger] after.vals()[i] }) by {
            if after.keys()[i] == c.output && after.vals()[i] == c.expr {
                assert(retained(cache, shorter, config, n, o) && candidate_of(cache, config, o)
                    == Some(Candidate { output: after.keys()[i], expr: after.vals()[i] }));
            } else {
                assert(after.vals()[i] == before.vals()[i]);
            }
        }
    }
}

/// What placing a bracketed candidate or a leaf does: it goes into the level by the
/// keep-best rule, and a leaf that matches the goal is listed as a solution once.
pub open spec fn placed<M: OutputMap>(
    before: &Level,
    listed: Seq<Expr>,
    output: Seq<Num>,
    expr: Expr,
    config: &Config<M>,
    after: &Level,
    listed_after: Seq<Expr>,
) -> bool {
    &&& keep_best(before, output, expr, after)
    &&& listed_after == if expr.op != Operator::Parens && config.is_goal(output) && !listed.contains(
        expr,
    ) {
        listed.push(expr)
    } else {
        listed
    }
}

/// Places a bracketed candidate or a leaf.
pub fn place<M: OutputMap>(
    level: &mut Level,
    solutions: &mut Vec<Expr>,
    output: Vector,
    expr: Expr,
    config: &Config<M>,
)
    requires
        old(level).wf(),
    ensures
        final(level).wf(),
        placed(
            &*old(level),
            old(solutions)@,
            output@,
            expr,
            config,
            &*final(level),
            final(solutions)@,
        ),
{
    if expr.op != Operator::Parens && Matcher::match_all(config, &output, &expr) {
        let mut found = false;
        let mut i: usize = 0;
        while i < solutions.len()
            invariant
                i <= solutions@.len(),
                found == solutions@.take(i as int).contains(expr),
            decreases solutions@.len() - i,
        {
            proof {
                let shorter_part = solutions@.take(i as int);
                let longer_part = solutions@.take(i + 1);
                assert(longer_part =~= shorter_part.push(solutions@[i as int]));
                if shorter_part.contains(expr) {
                    let j = choose|j: int| 0 <= j < shorter_part.len() && shorter_part[j] == expr;
                    assert(longer_part[j] == expr);
                }
                if solutions@[i as int] == expr {
                    assert(longer_part[i as int] == expr);
                }
            }
            if solutions[i] == expr {
                found = true;
            }
            i = i + 1;
        }
        proof {
            assert(solutions@.take(i as int) =~= solutions@);
        }
        if !found {
            solutions.push(expr);
        }
    }
    insert_to_level(level, output, expr);
}

/// Placing a candidate of the length keeps the level and the list sound, loses nothing,
/// and deals with the way the candidate came about.
pub proof fn lemma_placed<M: OutputMap>(
    before: &Level,
    listed: Seq<Expr>,
    after: &Level,
    listed_after: Seq<Expr>,
    cache: Seq<Level>,
    shorter: &Shorter,
    config: &Config<M>,
    n: int,
    o: Origin,
)
    requires
        sound(before, listed, cache, shorter, config, n),
        after.wf(),
        !(o is Binary || o is Unary),
        origin_len(o) == n,
        candidate_of(cache, config, o) is Some,
        placed(
            before,
            listed,
            candidate_of(cache, config, o).unwrap().output,
            candidate_of(cache, config, o).unwrap().expr,
            config,
            after,
            listed_after,
        ),
    ensures
        sound(after, listed_after, cache, shorter, config, n),
        grown(before, listed, after, listed_after),
        handled(after, listed_after, cache, shorter, config, n, o),
{
    let c = candidate_of(cache, config, o).unwrap();
    assert(before.wf() && level_sound(before, cache, shorter, config, n) && solutions_sound(
        listed,
        cache,
        config,
        n,
    )) by {
        reveal(sound);
    }
    let e = c.expr;
    assert(o is Parens <==> e.op == Operator::Parens);
    assert(retained(cache, shorter, config, n, o));
    lemma_placed_level(before, after, cache, shorter, config, n, o);
    let wanted = e.op != Operator::Parens && config.is_goal(c.output);
    lemma_listed_once(listed, listed_after, e, wanted);
    lemma_placed_list(listed, listed_after, cache, config, n, o);
    assert(reported(cache, config, n, o) ==> listed_after.contains(e));
    lemma_placed_bundle(before, listed, after, listed_after, cache, shorter, config, n, o);
}

/// Listing an expression unless it is listed already leaves the list as it was or longer
/// by that expression, and the expression is in it afterwards.
proof fn lemma_listed_once(listed: Seq<Expr>, listed_after: Seq<Expr>, e: Expr, wanted: bool)
    requires
        listed_after == if wanted && !listed.contains(e) {
            listed.push(e)
        } else {
            listed
        },
    ensures
        listed.is_prefix_of(listed_after),
        wanted ==> listed_after.contains(e),
        listed_after == listed || (wanted && listed_after == listed.push(e)),
{
    if wanted && !listed.contains(e) {
        assert(listed_after[listed.len() as int] == e);
    }
}

/// Puts the parts of placing a candidate together.
proof fn lemma_placed_bundle<M: OutputMap>(
    before: &Level,
    listed: Seq<Expr>,
    after: &Level,
    listed_after: Seq<Expr>,
    cache: Seq<Level>,
    shorter: &Shorter,
    config: &Config<M>,
    n: int,
    o: Origin,
)
    requires
        after.wf(),
        level_sound(after, cache, shorter, config, n),
        solutions_sound(listed_after, cache, config, n),
        extends(before, after),
        listed.is_prefix_of(listed_after),
        covers(after, candidate_of(cache, config, o).unwrap()),
        reported(cache, config, n, o) ==> listed_after.contains(
            candidate_of(cache, config, o).unwrap().expr,
        ),
    ensures
        sound(after, listed_after, cache, shorter, config, n),
        grown(before, listed, after, listed_after),
        handled(after, listed_after, cache, shorter, config, n, o),
{
    reveal(handled);
    reveal(grown);
    reveal(sound);
}

/// The level's part of placing a candidate.
proof fn lemma_placed_level<M: OutputMap>(
    before: &Level,
    after: &Level,
    cache: Seq<Level>,
    shorter: &Shorter,
    config: &Config<M>,
    n: int,
    o: Origin,
)
    requires
        before.wf(),
        after.wf(),
        level_sound(before, cache, shorter, config, n),
        retained(cache, shorter, config, n, o),
        keep_best(
            before,
            candidate_of(cache, config, o).unwrap().output,
            candidate_of(cache, config, o).unwrap().expr,
            after,
        ),
    ensures
        level_sound(after, cache, shorter, config, n),
        extends(before, after),
        covers(after, candidate_of(cache, config, o).unwrap()),
{
    reveal(level_sound);
    let c = candidate_of(cache, config, o).unwrap();
    assert(c == Candidate { output: c.output, expr: c.expr });
    lemma_keep_best(before, c.output, c.expr, after);
    assert forall|i: int| 0 <= i < after.keys().len() implies exists|o2: Origin|
        retained(cache, shorter, config, n, o2) && #[trigger] candidate_of(cache, config, o2)
            == Some(Candidate { output: after.keys()[i], expr: #[trigger] after.vals()[i] }) by {
        if after.keys()[i] == c.output && after.vals()[i] == c.expr {
            assert(candidate_of(cache, config, o) == Some(
                Candidate { output: after.keys()[i], expr: after.vals()[i] },
            ));
        } else {
            assert(after.vals()[i] == before.vals()[i]);
        }
    }
}

/// The list's part of placing a candidate.
proof fn lemma_placed_list<M: OutputMap>(
    listed: Seq<Expr>,
    listed_after: Seq<Expr>,
    cache: Seq<Level>,
    config: &Config<M>,
    n: int,
    o: Origin,
)
    requires
        solutions_sound(listed, cache, config, n),
        candidate_of(cache, config, o) is Some,
        origin_len(o) == n,
        listed_after == listed || (reported(cache, config, n, o) && listed_after == listed.push(
            candidate_of(cache, config, o).unwrap().expr,
        )),
    ensures
        solutions_sound(listed_after, cache, config, n),
        listed.is_prefix_of(listed_after),
{
    reveal(solutions_sound);
    let e = candidate_of(cache, config, o).unwrap().expr;
    if listed_after != listed {
        assert forall|i: int| 0 <= i < listed_after.len() implies exists|o2: Origin|
            reported(cache, config, n, o2) && (#[trigger] candidate_of(cache, config, o2)).unwrap().expr
                == #[trigger] listed_after[i] by {
            if i < listed.len() {
                assert(listed_after[i] == listed[i]);
            } else {
                assert(candidate_of(cache, config, o).unwrap().expr == listed_after[i]);
            }
        }
    }
}

/// A level and a list have grown from themselves.
pub proof fn lemma_grown_refl(level: &Level, listed: Seq<Expr>)
    ensures
        grown(level, listed, level, listed),
{
    reveal(grown);
    reveal(extends);
}

/// A way that yields no candidate of the length is dealt with by any level and list.
pub proof fn lemma_handled_vacuous<M: OutputMap>(
    level: &Level,
    listed: Seq<Expr>,
    cache: Seq<Level>,
    shorter: &Shorter,
    config: &Config<M>,
    n: int,
    o: Origin,
)
    requires
        candidate_of(cache, config, o) is None || origin_len(o) != n,
    ensures
        handled(level, listed, cache, shorter, config, n, o),
{
    reveal(handled);
}

/// An empty level and an empty list are sound.
pub proof fn lemma_sound_empty<M: OutputMap>(
    level: &Level,
    cache: Seq<Level>,
    shorter: &Shorter,
    config: &Config<M>,
    n: int,
)
    requires
        level.wf(),
        level.keys().len() == 0,
    ensures
        sound(level, Seq::<Expr>::empty(), cache, shorter, config, n),
{
    reveal(sound);
    reveal(level_sound);
    reveal(solutions_sound);
    level.lemma_wf();
}

} // verus!
