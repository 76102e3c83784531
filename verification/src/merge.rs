//! The merge of two levels by the keep-best rule.

use crate::cache::Level;
use crate::candidate::{
    candidate_of, covers, level_sound, reported, retained, solutions_sound, Candidate, Origin,
    Shorter,
};
use crate::expand::Partial;
use crate::expr::Expr;
use crate::keep::{
    extends, grown, handled, insert_to_level, keep_best, keeps_handled, lemma_grown_keeps, sound,
};
use crate::num::Num;
use crate::params::{Config, OutputMap};
use crate::vector::vec_copy;
use vstd::prelude::*;

verus! {

/// The expression that survives for an output when two levels are merged: the first
/// level's, unless only the second holds the output or the second's precedence code is
/// strictly greater.
pub open spec fn survivor(a: &Level, b: &Level, k: Seq<Num>) -> Expr {
    if a.contains(k) && (!b.contains(k) || b.value_of(k).op.spec_code() <= a.value_of(
        k,
    ).op.spec_code()) {
        a.value_of(k)
    } else {
        b.value_of(k)
    }
}

/// A level is the merge of two where it holds the outputs of both and, for each, the
/// survivor.
pub open spec fn merged(a: &Level, b: &Level, r: &Level) -> bool {
    &&& forall|k: Seq<Num>| #[trigger] r.contains(k) <==> a.contains(k) || b.contains(k)
    &&& forall|k: Seq<Num>| r.contains(k) ==> #[trigger] r.value_of(k) == survivor(a, b, k)
}

/// The precedence code a level holds for an output, if it holds the output.
pub open spec fn code_at(level: &Level, k: Seq<Num>) -> Option<u8> {
    if level.contains(k) {
        Some(level.value_of(k).op.spec_code())
    } else {
        None
    }
}

/// The merge with the entries of the second level up to a position only.
pub open spec fn merged_upto(a: &Level, b: &Level, i: int, r: &Level) -> bool {
    &&& forall|k: Seq<Num>| #[trigger]
        r.contains(k) <==> a.contains(k) || (b.contains(k) && b.index_of(k) < i)
    &&& forall|k: Seq<Num>|
        r.contains(k) ==> #[trigger] r.value_of(k) == if b.contains(k) && b.index_of(k) < i {
            survivor(a, b, k)
        } else {
            a.value_of(k)
        }
}

/// What the keep-best rule means for the level as a map.
pub proof fn lemma_keep_best_map(before: &Level, output: Seq<Num>, expr: Expr, after: &Level)
    requires
        before.wf(),
        after.wf(),
        keep_best(before, output, expr, after),
    ensures
        forall|k: Seq<Num>| #[trigger] after.contains(k) <==> before.contains(k) || k == output,
        forall|k: Seq<Num>|
            after.contains(k) ==> #[trigger] after.value_of(k) == if k == output && (
            !before.contains(k) || expr.op.spec_code() > before.value_of(k).op.spec_code()) {
                expr
            } else {
                before.value_of(k)
            },
{
    before.lemma_wf();
    after.lemma_wf();
    if !before.contains(output) {
        after.lemma_pushed(before, output, expr);
    } else if expr.op.spec_code() > before.value_of(output).op.spec_code() {
        let at = before.index_of(output);
        assert(before.keys()[at] == output);
        after.lemma_replaced(before, at, expr);
    } else {
        assert forall|k: Seq<Num>| #[trigger] after.contains(k) <==> before.contains(k) by {}
        assert forall|k: Seq<Num>| after.contains(k) implies #[trigger] after.value_of(k)
            == before.value_of(k) by {}
    }
}

/// Merges a level into another by the keep-best rule, entry by entry.
pub fn merge_levels(level: &mut Level, other: &Level)
    requires
        old(level).wf(),
        other.wf(),
    ensures
        final(level).wf(),
        merged(&*old(level), other, &*final(level)),
{
    let ghost start = *level;
    proof {
        other.lemma_wf();
    }
    let count = other.len();
    let mut i: usize = 0;
    while i < count
        invariant
            i <= count,
            count == other.keys().len(),
            other.wf(),
            level.wf(),
            merged_upto(&start, other, i as int, &*level),
        decreases count - i,
    {
        let ghost before = *level;
        let key = vec_copy(other.key_at(i));
        let val = other.val_at(i);
        insert_to_level(level, key, val);
        proof {
            other.lemma_wf();
            lemma_keep_best_map(&before, key@, val, &*level);
            assert(other.contains(key@) && other.index_of(key@) == i);
            assert(other.value_of(key@) == val);
            assert forall|k: Seq<Num>| #[trigger]
                level.contains(k) <==> start.contains(k) || (other.contains(k) && other.index_of(k)
                    < i + 1) by {
                if other.contains(k) && other.index_of(k) == i {
                    assert(other.keys()[i as int] == k);
                }
            }
            assert forall|k: Seq<Num>| level.contains(k) implies #[trigger] level.value_of(k)
                == if other.contains(k) && other.index_of(k) < i + 1 {
                survivor(&start, other, k)
            } else {
                start.value_of(k)
            } by {
                if other.contains(k) && other.index_of(k) == i {
                    assert(other.keys()[i as int] == k);
                }
            }
        }
        i = i + 1;
    }
    proof {
        assert forall|k: Seq<Num>| other.contains(k) implies other.index_of(k) < count by {
            assert(other.keys().contains(k));
        }
    }
}

/// Merging is commutative as far as precedence goes: merged either way round, two levels
/// give the same outputs with the same precedence codes.
pub proof fn law_merge_commutes(a: &Level, b: &Level, ab: &Level, ba: &Level)
    requires
        merged(a, b, ab),
        merged(b, a, ba),
    ensures
        forall|k: Seq<Num>| #[trigger] code_at(ab, k) == code_at(ba, k),
{
    assert forall|k: Seq<Num>| #[trigger] code_at(ab, k) == code_at(ba, k) by {
        if ab.contains(k) {
            assert(ab.value_of(k) == survivor(a, b, k));
            assert(ba.contains(k));
            assert(ba.value_of(k) == survivor(b, a, k));
        } else {
            assert(!ba.contains(k));
        }
    }
}

/// Merging is associative as far as precedence goes: three levels merged in either
/// grouping give the same outputs with the same precedence codes.
pub proof fn law_merge_associates(
    a: &Level,
    b: &Level,
    c: &Level,
    ab: &Level,
    bc: &Level,
    left: &Level,
    right: &Level,
)
    requires
        merged(a, b, ab),
        merged(ab, c, left),
        merged(b, c, bc),
        merged(a, bc, right),
    ensures
        forall|k: Seq<Num>| #[trigger] code_at(left, k) == code_at(right, k),
{
    assert forall|k: Seq<Num>| #[trigger] code_at(left, k) == code_at(right, k) by {
        if left.contains(k) {
            assert(left.value_of(k) == survivor(ab, c, k));
            assert(right.contains(k));
            assert(right.value_of(k) == survivor(a, bc, k));
            if ab.contains(k) {
                assert(ab.value_of(k) == survivor(a, b, k));
            }
            if bc.contains(k) {
                assert(bc.value_of(k) == survivor(b, c, k));
            }
        } else {
            assert(!ab.contains(k));
            assert(!right.contains(k));
        }
    }
}

/// What a merge means for the search: a merge of two sound levels is sound and covers
/// whatever either of them covered.
pub proof fn lemma_merged_sound<M: OutputMap>(
    a: &Level,
    b: &Level,
    r: &Level,
    cache: Seq<Level>,
    shorter: &Shorter,
    config: &Config<M>,
    n: int,
)
    requires
        a.wf(),
        b.wf(),
        r.wf(),
        merged(a, b, r),
        level_sound(a, cache, shorter, config, n),
        level_sound(b, cache, shorter, config, n),
    ensures
        level_sound(r, cache, shorter, config, n),
        extends(a, r),
        extends(b, r),
{
    reveal(level_sound);
    reveal(extends);
    a.lemma_wf();
    b.lemma_wf();
    r.lemma_wf();
    assert forall|i: int| 0 <= i < r.keys().len() implies exists|o: Origin|
        retained(cache, shorter, config, n, o) && #[trigger] candidate_of(cache, config, o) == Some(
            Candidate { output: r.keys()[i], expr: #[trigger] r.vals()[i] },
        ) by {
        let k = r.keys()[i];
        assert(r.contains(k) && r.index_of(k) == i);
        assert(r.value_of(k) == survivor(a, b, k));
        if r.value_of(k) == a.value_of(k) && a.contains(k) {
            let j = a.index_of(k);
            assert(a.keys()[j] == k);
            let o = choose|o: Origin|
                retained(cache, shorter, config, n, o) && #[trigger] candidate_of(cache, config, o)
                    == Some(Candidate { output: a.keys()[j], expr: a.vals()[j] });
            assert(candidate_of(cache, config, o) == Some(
                Candidate { output: r.keys()[i], expr: r.vals()[i] },
            ));
        } else {
            assert(b.contains(k));
            let j = b.index_of(k);
            assert(b.keys()[j] == k);
            let o = choose|o: Origin|
                retained(cache, shorter, config, n, o) && #[trigger] candidate_of(cache, config, o)
                    == Some(Candidate { output: b.keys()[j], expr: b.vals()[j] });
            assert(candidate_of(cache, config, o) == Some(
                Candidate { output: r.keys()[i], expr: r.vals()[i] },
            ));
        }
    }
    assert forall|c: Candidate| #[trigger] covers(a, c) implies covers(r, c) by {
        assert(r.contains(c.output));
        assert(r.value_of(c.output) == survivor(a, b, c.output));
    }
    assert forall|c: Candidate| #[trigger] covers(b, c) implies covers(r, c) by {
        assert(r.contains(c.output));
        assert(r.value_of(c.output) == survivor(a, b, c.output));
    }
}

/// Folds what one unit of work left behind into a level and a list of solutions: the
/// levels are merged, and the unit's solutions are appended.
pub(crate) fn merge_partial<M: OutputMap>(
    level: &mut Level,
    solutions: &mut Vec<Expr>,
    part: &Partial,
    Ghost(cache): Ghost<Seq<Level>>,
    shorter: &Shorter,
    config: &Config<M>,
    Ghost(n): Ghost<int>,
)
    requires
        sound(&*old(level), old(solutions)@, cache, shorter, config, n),
        sound(&part.level, part.solutions@, cache, shorter, config, n),
    ensures
        sound(&*final(level), final(solutions)@, cache, shorter, config, n),
        keeps_handled(
            &*old(level),
            old(solutions)@,
            &*final(level),
            final(solutions)@,
            cache,
            shorter,
            config,
            n,
        ),
        keeps_handled(
            &part.level,
            part.solutions@,
            &*final(level),
            final(solutions)@,
            cache,
            shorter,
            config,
            n,
        ),
{
    let ghost start = *level;
    let ghost listed = solutions@;
    proof {
        reveal(sound);
    }
    merge_levels(level, &part.level);
    let mut k: usize = 0;
    while k < part.solutions.len()
        invariant
            k <= part.solutions@.len(),
            solutions@ == listed + part.solutions@.take(k as int),
        decreases part.solutions@.len() - k,
    {
        solutions.push(part.solutions[k]);
        proof {
            assert(part.solutions@.take(k + 1) =~= part.solutions@.take(k as int).push(
                part.solutions@[k as int],
            ));
            assert(solutions@ =~= listed + part.solutions@.take(k + 1));
        }
        k = k + 1;
    }
    proof {
        assert(part.solutions@.take(k as int) =~= part.solutions@);
        lemma_merged_sound(&start, &part.level, &*level, cache, shorter, config, n);
        lemma_appended(listed, part.solutions@, solutions@, cache, config, n);
        assert(grown(&start, listed, &*level, solutions@)) by {
            reveal(grown);
        }
        lemma_grown_keeps(&start, listed, &*level, solutions@, cache, shorter, config, n);
        lemma_grown_suffix_keeps(
            &part.level,
            part.solutions@,
            &*level,
            listed,
            solutions@,
            cache,
            shorter,
            config,
            n,
        );
    }
}

/// Two sound lists, one after the other, are a sound list.
proof fn lemma_appended<M: OutputMap>(
    first: Seq<Expr>,
    second: Seq<Expr>,
    both: Seq<Expr>,
    cache: Seq<Level>,
    config: &Config<M>,
    n: int,
)
    requires
        both == first + second,
        solutions_sound(first, cache, config, n),
        solutions_sound(second, cache, config, n),
    ensures
        solutions_sound(both, cache, config, n),
        first.is_prefix_of(both),
{
    reveal(solutions_sound);
    assert forall|j: int| 0 <= j < both.len() implies exists|o: Origin|
        reported(cache, config, n, o) && (#[trigger] candidate_of(cache, config, o)).unwrap().expr
            == #[trigger] both[j] by {
        if j < first.len() {
            assert(both[j] == first[j]);
            let o = choose|o: Origin|
                reported(cache, config, n, o) && (#[trigger] candidate_of(
                    cache,
                    config,
                    o,
                )).unwrap().expr == first[j];
            assert(candidate_of(cache, config, o).unwrap().expr == both[j]);
        } else {
            let at = j - first.len();
            assert(both[j] == second[at]);
            let o = choose|o: Origin|
                reported(cache, config, n, o) && (#[trigger] candidate_of(
                    cache,
                    config,
                    o,
                )).unwrap().expr == second[at];
            assert(candidate_of(cache, config, o).unwrap().expr == both[j]);
        }
    }
    assert(solutions_sound(both, cache, config, n));
}

/// A level that extends another, with a list that ends in the other's list, deals with
/// whatever the other level and list had dealt with.
proof fn lemma_grown_suffix_keeps<M: OutputMap>(
    before: &Level,
    listed: Seq<Expr>,
    after: &Level,
    ahead: Seq<Expr>,
    listed_after: Seq<Expr>,
    cache: Seq<Level>,
    shorter: &Shorter,
    config: &Config<M>,
    n: int,
)
    requires
        extends(before, after),
        listed_after == ahead + listed,
    ensures
        keeps_handled(before, listed, after, listed_after, cache, shorter, config, n),
{
    reveal(handled);
    reveal(extends);
    assert forall|o: Origin|
        handled(before, listed, cache, shorter, config, n, o) implies #[trigger] handled(
        after,
        listed_after,
        cache,
        shorter,
        config,
        n,
        o,
    ) by {
        if reported(cache, config, n, o) {
            let e = candidate_of(cache, config, o).unwrap().expr;
            let j = choose|j: int| 0 <= j < listed.len() && listed[j] == e;
            assert(listed_after[ahead.len() + j] == e);
        }
    }
}

} // verus!
