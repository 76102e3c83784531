//! The index of the outputs seen at short lengths, by which longer duplicates are pruned.

use crate::cache::{ref_expr, ref_output, valid_ref, Level};
use crate::candidate::Shorter;
use crate::expr::ExprRef;
use crate::num::Num;
use crate::vector::{vec_copy, Vector};
use vstd::prelude::*;

verus! {

/// The index holds an output with a precedence class at least as great as the given one.
pub open spec fn index_covers(shorter: &Shorter, output: Seq<Num>, prec: u8) -> bool {
    shorter.contains(output) && shorter.value_of(output) >= prec
}

/// The index holds the output of every expression of a length up to the ceiling, with a
/// precedence class at least as great as the expression's.
#[verifier::opaque]
pub open spec fn index_dominates(shorter: &Shorter, cache: Seq<Level>, ceiling: int) -> bool {
    forall|at: ExprRef|
        valid_ref(cache, at) && at.len <= ceiling ==> index_covers(
            shorter,
            ref_output(cache, at),
            (#[trigger] ref_expr(cache, at)).op.spec_prec(),
        )
}

/// Every output in the index is the output of an expression of a length up to the ceiling,
/// with the precedence class the index records for it.
#[verifier::opaque]
pub open spec fn index_sound(shorter: &Shorter, cache: Seq<Level>, ceiling: int) -> bool {
    forall|k: Seq<Num>| #[trigger]
        shorter.contains(k) ==> exists|at: ExprRef|
            valid_ref(cache, at) && at.len <= ceiling && ref_output(cache, at) == k
                && (#[trigger] ref_expr(cache, at)).op.spec_prec() == shorter.value_of(k)
}

/// Recording a class for an output: a new output goes in with the class; for an output the
/// index holds, the class replaces the recorded one only where it is greater.
pub open spec fn kept_max(before: &Shorter, output: Seq<Num>, prec: u8, after: &Shorter) -> bool {
    if !before.contains(output) {
        after.keys() == before.keys().push(output) && after.vals() == before.vals().push(prec)
    } else if prec > before.value_of(output) {
        after.keys() == before.keys() && after.vals() == before.vals().update(
            before.index_of(output),
            prec,
        )
    } else {
        after.keys() == before.keys() && after.vals() == before.vals()
    }
}

/// The later index records for every output at least what the earlier one recorded.
#[verifier::opaque]
pub open spec fn index_grows(before: &Shorter, after: &Shorter) -> bool {
    forall|k: Seq<Num>, prec: u8| #[trigger]
        index_covers(before, k, prec) ==> index_covers(after, k, prec)
}

/// Every output of the later index was in the earlier one with the same class, or is the
/// given output with the given class.
pub open spec fn index_from(before: &Shorter, output: Seq<Num>, prec: u8, after: &Shorter) -> bool {
    forall|k: Seq<Num>| #[trigger]
        after.contains(k) ==> (before.contains(k) && after.value_of(k) == before.value_of(k)) || (k
            == output && after.value_of(k) == prec)
}

/// What recording a class means for the index.
pub proof fn lemma_kept_max(before: &Shorter, output: Seq<Num>, prec: u8, after: &Shorter)
    requires
        before.wf(),
        after.wf(),
        kept_max(before, output, prec, after),
    ensures
        index_covers(after, output, prec),
        index_grows(before, after),
        index_from(before, output, prec, after),
{
    reveal(index_grows);
    before.lemma_wf();
    after.lemma_wf();
    if !before.contains(output) {
        after.lemma_pushed(before, output, prec);
    } else if prec > before.value_of(output) {
        let at = before.index_of(output);
        assert(before.keys()[at] == output);
        after.lemma_replaced(before, at, prec);
    } else {
        assert forall|k: Seq<Num>| #[trigger] after.contains(k) implies before.contains(k)
            && after.value_of(k) == before.value_of(k) by {}
    }
}

/// Records a precedence class for an output.
pub fn keep_max(shorter: &mut Shorter, output: &Vector, prec: u8)
    requires
        old(shorter).wf(),
    ensures
        final(shorter).wf(),
        kept_max(&*old(shorter), output@, prec, &*final(shorter)),
{
    match shorter.find(output) {
        Some(i) => {
            if prec > shorter.val_at(i) {
                shorter.set_val(i, prec);
            }
        },
        None => {
            shorter.push_new(vec_copy(output), prec);
        },
    }
}

/// Records every expression of the newest level in the index.
pub(crate) fn remember_level(
    shorter: &mut Shorter,
    level: &Level,
    Ghost(cache): Ghost<Seq<Level>>,
    Ghost(ceiling): Ghost<int>,
)
    requires
        old(shorter).wf(),
        level.wf(),
        1 <= cache.len() <= usize::MAX,
        cache.last() == *level,
        cache.len() - 1 <= ceiling,
        index_sound(&*old(shorter), cache.drop_last(), ceiling),
        index_dominates(&*old(shorter), cache.drop_last(), ceiling),
    ensures
        final(shorter).wf(),
        index_sound(&*final(shorter), cache, ceiling),
        index_dominates(&*final(shorter), cache, ceiling),
{
    let ghost start = *shorter;
    let ghost n = cache.len() - 1;
    let count = level.len();
    let mut i: usize = 0;
    proof {
        reveal(index_grows);
    }
    while i < count
        invariant
            i <= count,
            count == level.keys().len(),
            level.wf(),
            shorter.wf(),
            index_grows(&start, &*shorter),
            forall|j: int|
                0 <= j < i ==> index_covers(
                    &*shorter,
                    level.keys()[j],
                    (#[trigger] level.vals()[j]).op.spec_prec(),
                ),
            forall|k: Seq<Num>| #[trigger]
                shorter.contains(k) ==> (start.contains(k) && shorter.value_of(k) == start.value_of(
                    k,
                )) || exists|j: int|
                    0 <= j < i && level.keys()[j] == k && (#[trigger] level.vals()[j]).op.spec_prec()
                        == shorter.value_of(k),
        decreases count - i,
    {
        let ghost before = *shorter;
        let prec = level.val_at(i).op.prec();
        keep_max(shorter, level.key_at(i), prec);
        proof {
            let key = level.keys()[i as int];
            lemma_kept_max(&before, key, prec, &*shorter);
            reveal(index_grows);
            assert forall|j: int| 0 <= j < i + 1 implies index_covers(
                &*shorter,
                level.keys()[j],
                (#[trigger] level.vals()[j]).op.spec_prec(),
            ) by {
                if j < i {
                    assert(index_covers(&before, level.keys()[j], level.vals()[j].op.spec_prec()));
                }
            }
            assert forall|k: Seq<Num>| #[trigger] shorter.contains(k) implies (start.contains(k)
                && shorter.value_of(k) == start.value_of(k)) || exists|j: int|
                0 <= j < i + 1 && level.keys()[j] == k && (#[trigger] level.vals()[j]).op.spec_prec()
                    == shorter.value_of(k) by {
                if before.contains(k) && shorter.value_of(k) == before.value_of(k) {
                    if !(start.contains(k) && before.value_of(k) == start.value_of(k)) {
                        let j = choose|j: int|
                            0 <= j < i && level.keys()[j] == k && (#[trigger] level.vals()[j]).op.spec_prec()
                                == before.value_of(k);
                        assert(0 <= j < i + 1 && level.keys()[j] == k && level.vals()[j].op.spec_prec()
                            == shorter.value_of(k));
                    }
                } else {
                    assert(level.keys()[i as int] == k && level.vals()[i as int].op.spec_prec()
                        == shorter.value_of(k));
                }
            }
        }
        i = i + 1;
    }
    proof {
        let prior = cache.drop_last();
        assert(index_dominates(&*shorter, cache, ceiling)) by {
            reveal(index_dominates);
            reveal(index_grows);
            assert forall|at: ExprRef| valid_ref(cache, at) && at.len <= ceiling implies index_covers(
                &*shorter,
                ref_output(cache, at),
                (#[trigger] ref_expr(cache, at)).op.spec_prec(),
            ) by {
                if at.len < n {
                    assert(valid_ref(prior, at));
                    assert(ref_expr(prior, at) == ref_expr(cache, at));
                    assert(index_covers(
                        &start,
                        ref_output(prior, at),
                        ref_expr(prior, at).op.spec_prec(),
                    ));
                } else {
                    assert(level.vals()[at.idx as int] == ref_expr(cache, at));
                }
            }
        }
        assert(index_sound(&*shorter, cache, ceiling)) by {
            reveal(index_sound);
            assert forall|k: Seq<Num>| #[trigger] shorter.contains(k) implies exists|at: ExprRef|
                valid_ref(cache, at) && at.len <= ceiling && ref_output(cache, at) == k
                    && (#[trigger] ref_expr(cache, at)).op.spec_prec() == shorter.value_of(k) by {
                if start.contains(k) && shorter.value_of(k) == start.value_of(k) {
                    let at = choose|at: ExprRef|
                        valid_ref(prior, at) && at.len <= ceiling && ref_output(prior, at) == k
                            && (#[trigger] ref_expr(prior, at)).op.spec_prec() == start.value_of(k);
                    assert(valid_ref(cache, at) && ref_output(cache, at) == k && ref_expr(
                        cache,
                        at,
                    ).op.spec_prec() == shorter.value_of(k));
                } else {
                    let j = choose|j: int|
                        0 <= j < i && level.keys()[j] == k && (#[trigger] level.vals()[j]).op.spec_prec()
                            == shorter.value_of(k);
                    let at = ExprRef { len: n as usize, idx: j as usize };
                    assert(valid_ref(cache, at) && ref_output(cache, at) == k && ref_expr(
                        cache,
                        at,
                    ).op.spec_prec() == shorter.value_of(k));
                }
            }
        }
    }
}

} // verus!
