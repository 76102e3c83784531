//! Binary composition: the units of work that build the candidates with one right operand.

use crate::cache::{
    cache_shaped, expr_at, ok_after_keyword, ok_before_keyword, output_at,
    spec_ok_after_keyword, spec_ok_before_keyword, valid_ref, Cache, Level,
};
use crate::candidate::{candidate_of, origin_len, Candidate, Origin, Shorter};
use crate::expr::{Expr, ExprRef};
use crate::keep::{
    grown, handled, keeps_handled, lemma_grown_keeps, lemma_grown_refl, lemma_grown_trans,
    lemma_handled_vacuous, lemma_saved, lemma_sound_empty, save, sound,
};
use crate::operator::{Operator, PREC_UNARY};
use crate::params::{Config, OutputMap};
use crate::vector::{divmod, vec_binary, vec_unary, Vector};
use vstd::prelude::*;

verus! {

/// Saves the candidate that comes about in a given way.
fn save_candidate<M: OutputMap>(
    level: &mut Level,
    solutions: &mut Vec<Expr>,
    output: Vector,
    expr: Expr,
    cache: &Cache,
    shorter: &Shorter,
    config: &Config<M>,
    n: usize,
    Ghost(o): Ghost<Origin>,
)
    requires
        sound(&*old(level), old(solutions)@, cache@, shorter, config, n as int),
        shorter.wf(),
        o is Binary || o is Unary,
        origin_len(o) == n,
        candidate_of(cache@, config, o) == Some(Candidate { output: output@, expr }),
    ensures
        sound(&*final(level), final(solutions)@, cache@, shorter, config, n as int),
        grown(&*old(level), old(solutions)@, &*final(level), final(solutions)@),
        keeps_handled(
            &*old(level),
            old(solutions)@,
            &*final(level),
            final(solutions)@,
            cache@,
            shorter,
            config,
            n as int,
        ),
        handled(&*final(level), final(solutions)@, cache@, shorter, config, n as int, o),
{
    let ghost before = *level;
    let ghost listed = solutions@;
    proof {
        reveal(sound);
    }
    save(level, solutions, output, expr, shorter, config);
    proof {
        lemma_saved(&before, listed, &*level, solutions@, cache@, shorter, config, n as int, o);
        lemma_grown_keeps(&before, listed, &*level, solutions@, cache@, shorter, config, n as int);
    }
}

/// True for the written forms of the keyword `or`.
pub open spec fn is_keyword(op: Operator) -> bool {
    op == Operator::Or || op == Operator::SpaceOr || op == Operator::OrSpace
}

/// Tries one binary operator on a pair of operands and saves what comes of it.
fn try_binary<M: OutputMap>(
    level: &mut Level,
    solutions: &mut Vec<Expr>,
    cache: &Cache,
    shorter: &Shorter,
    config: &Config<M>,
    n: usize,
    l: ExprRef,
    r: ExprRef,
    op: Operator,
    before_ok: bool,
    after_ok: bool,
)
    requires
        sound(&*old(level), old(solutions)@, cache@, shorter, config, n as int),
        cache_shaped(cache@),
        shorter.wf(),
        valid_ref(cache@, l),
        valid_ref(cache@, r),
        l.len + r.len + op.spec_width() == n,
        is_keyword(op) && config.ops.spec_enabled(op) ==> before_ok == spec_ok_before_keyword(
            cache@,
            l,
        ) && after_ok == spec_ok_after_keyword(cache@, r),
    ensures
        sound(&*final(level), final(solutions)@, cache@, shorter, config, n as int),
        grown(&*old(level), old(solutions)@, &*final(level), final(solutions)@),
        keeps_handled(
            &*old(level),
            old(solutions)@,
            &*final(level),
            final(solutions)@,
            cache@,
            shorter,
            config,
            n as int,
        ),
        handled(
            &*final(level),
            final(solutions)@,
            cache@,
            shorter,
            config,
            n as int,
            Origin::Binary { l, r, op },
        ),
{
    let ghost o = Origin::Binary { l, r, op };
    proof {
        lemma_grown_refl(&*level, solutions@);
        lemma_grown_keeps(
            &*level,
            solutions@,
            &*level,
            solutions@,
            cache@,
            shorter,
            config,
            n as int,
        );
        if candidate_of(cache@, config, o) is None {
            lemma_handled_vacuous(&*level, solutions@, cache@, shorter, config, n as int, o);
        }
    }
    let el = expr_at(cache, l);
    let er = expr_at(cache, r);
    if !op.is_binary() || !config.ops.enabled(op) || el.prec() < op.left_bound() || er.prec()
        <= op.right_bound() {
        return ;
    }
    if !config.reuse_vars && (el.var_mask & er.var_mask) != 0 {
        return ;
    }
    let fits = match op {
        Operator::Or => before_ok && after_ok,
        Operator::SpaceOr => !before_ok && after_ok,
        Operator::OrSpace => before_ok && !after_ok,
        _ => true,
    };
    if !fits {
        return ;
    }
    match vec_binary(op, output_at(cache, l), output_at(cache, r), &config.semantics) {
        Some(out) => {
            let expr = Expr::bin(l, r, op, el.var_mask | er.var_mask);
            save_candidate(
                level,
                solutions,
                out,
                expr,
                cache,
                shorter,
                config,
                n,
                Ghost(Origin::Binary { l, r, op }),
            );
        },
        None => {},
    }
}

/// Tries the modulo operator and the short division operator on a pair of operands, with
/// one pass over the vectors for both.
fn try_divmod<M: OutputMap>(
    level: &mut Level,
    solutions: &mut Vec<Expr>,
    cache: &Cache,
    shorter: &Shorter,
    config: &Config<M>,
    n: usize,
    l: ExprRef,
    r: ExprRef,
)
    requires
        sound(&*old(level), old(solutions)@, cache@, shorter, config, n as int),
        cache_shaped(cache@),
        shorter.wf(),
        valid_ref(cache@, l),
        valid_ref(cache@, r),
        l.len + r.len + 1 == n,
    ensures
        sound(&*final(level), final(solutions)@, cache@, shorter, config, n as int),
        grown(&*old(level), old(solutions)@, &*final(level), final(solutions)@),
        keeps_handled(
            &*old(level),
            old(solutions)@,
            &*final(level),
            final(solutions)@,
            cache@,
            shorter,
            config,
            n as int,
        ),
        handled(
            &*final(level),
            final(solutions)@,
            cache@,
            shorter,
            config,
            n as int,
            Origin::Binary { l, r, op: Operator::Mod },
        ),
        handled(
            &*final(level),
            final(solutions)@,
            cache@,
            shorter,
            config,
            n as int,
            Origin::Binary { l, r, op: Operator::Div1 },
        ),
{
    let ghost start = *level;
    let ghost listed = solutions@;
    let ghost o_mod = Origin::Binary { l, r, op: Operator::Mod };
    let ghost o_div = Origin::Binary { l, r, op: Operator::Div1 };
    proof {
        lemma_grown_refl(&start, listed);
        lemma_grown_keeps(&start, listed, &start, listed, cache@, shorter, config, n as int);
        if candidate_of(cache@, config, o_mod) is None {
            lemma_handled_vacuous(&start, listed, cache@, shorter, config, n as int, o_mod);
        }
        if candidate_of(cache@, config, o_div) is None {
            lemma_handled_vacuous(&start, listed, cache@, shorter, config, n as int, o_div);
        }
    }
    let el = expr_at(cache, l);
    let er = expr_at(cache, r);
    let want_mod = config.ops.enabled(Operator::Mod);
    let want_div = config.ops.enabled(Operator::Div1);
    if (!want_mod && !want_div) || el.prec() < Operator::Mod.left_bound() || er.prec()
        <= Operator::Mod.right_bound() {
        return ;
    }
    if !config.reuse_vars && (el.var_mask & er.var_mask) != 0 {
        return ;
    }
    match divmod(output_at(cache, l), output_at(cache, r), &config.semantics) {
        Some(pair) => {
            let (quots, rems) = pair;
            let mask = el.var_mask | er.var_mask;
            if want_mod {
                save_candidate(
                    level,
                    solutions,
                    rems,
                    Expr::bin(l, r, Operator::Mod, mask),
                    cache,
                    shorter,
                    config,
                    n,
                    Ghost(Origin::Binary { l, r, op: Operator::Mod }),
                );
            }
            let ghost mid = *level;
            let ghost listed_mid = solutions@;
            proof {
                if !want_mod {
                    lemma_grown_refl(&start, listed);
                }
                if !want_div {
                    lemma_grown_refl(&mid, listed_mid);
                    lemma_grown_keeps(
                        &mid,
                        listed_mid,
                        &mid,
                        listed_mid,
                        cache@,
                        shorter,
                        config,
                        n as int,
                    );
                }
            }
            if want_div {
                save_candidate(
                    level,
                    solutions,
                    quots,
                    Expr::bin(l, r, Operator::Div1, mask),
                    cache,
                    shorter,
                    config,
                    n,
                    Ghost(Origin::Binary { l, r, op: Operator::Div1 }),
                );
            }
            proof {
                lemma_grown_trans(&start, listed, &mid, listed_mid, &*level, solutions@);
                lemma_grown_keeps(
                    &start,
                    listed,
                    &*level,
                    solutions@,
                    cache@,
                    shorter,
                    config,
                    n as int,
                );
            }
        },
        None => {},
    }
}

/// Tries one prefix operator on an operand and saves what comes of it.
pub(crate) fn try_unary<M: OutputMap>(
    level: &mut Level,
    solutions: &mut Vec<Expr>,
    cache: &Cache,
    shorter: &Shorter,
    config: &Config<M>,
    n: usize,
    r: ExprRef,
    op: Operator,
)
    requires
        sound(&*old(level), old(solutions)@, cache@, shorter, config, n as int),
        cache_shaped(cache@),
        shorter.wf(),
        valid_ref(cache@, r),
        r.len + 1 == n,
    ensures
        sound(&*final(level), final(solutions)@, cache@, shorter, config, n as int),
        grown(&*old(level), old(solutions)@, &*final(level), final(solutions)@),
        keeps_handled(
            &*old(level),
            old(solutions)@,
            &*final(level),
            final(solutions)@,
            cache@,
            shorter,
            config,
            n as int,
        ),
        handled(
            &*final(level),
            final(solutions)@,
            cache@,
            shorter,
            config,
            n as int,
            Origin::Unary { r, op },
        ),
{
    let ghost o = Origin::Unary { r, op };
    proof {
        lemma_grown_refl(&*level, solutions@);
        lemma_grown_keeps(
            &*level,
            solutions@,
            &*level,
            solutions@,
            cache@,
            shorter,
            config,
            n as int,
        );
        if candidate_of(cache@, config, o) is None {
            lemma_handled_vacuous(&*level, solutions@, cache@, shorter, config, n as int, o);
        }
    }
    let er = expr_at(cache, r);
    if !op.is_unary() || !config.ops.enabled(op) || er.prec() < PREC_UNARY {
        return ;
    }
    match vec_unary(op, output_at(cache, r), &config.semantics) {
        Some(out) => {
            let expr = Expr::unary(&er, r, op);
            save_candidate(
                level,
                solutions,
                out,
                expr,
                cache,
                shorter,
                config,
                n,
                Ghost(Origin::Unary { r, op }),
            );
        },
        None => {},
    }
}

/// Tries, on one pair of operands, every binary operator whose text brings the pair to the
/// length that is being built.
fn expand_pair<M: OutputMap>(
    level: &mut Level,
    solutions: &mut Vec<Expr>,
    cache: &Cache,
    shorter: &Shorter,
    config: &Config<M>,
    n: usize,
    l: ExprRef,
    r: ExprRef,
)
    requires
        sound(&*old(level), old(solutions)@, cache@, shorter, config, n as int),
        cache_shaped(cache@),
        shorter.wf(),
        valid_ref(cache@, l),
        valid_ref(cache@, r),
        l.len + r.len < n <= l.len + r.len + 3,
    ensures
        sound(&*final(level), final(solutions)@, cache@, shorter, config, n as int),
        keeps_handled(
            &*old(level),
            old(solutions)@,
            &*final(level),
            final(solutions)@,
            cache@,
            shorter,
            config,
            n as int,
        ),
        forall|op: Operator| #[trigger]
            handled(
                &*final(level),
                final(solutions)@,
                cache@,
                shorter,
                config,
                n as int,
                Origin::Binary { l, r, op },
            ),
{
    let width = n - l.len - r.len;
    if width == 1 {
        try_binary(level, solutions, cache, shorter, config, n, l, r, Operator::Lt, false, false);
        try_binary(level, solutions, cache, shorter, config, n, l, r, Operator::BitOr, false, false);
        try_binary(level, solutions, cache, shorter, config, n, l, r, Operator::BitXor, false, false);
        try_binary(level, solutions, cache, shorter, config, n, l, r, Operator::BitAnd, false, false);
        try_binary(level, solutions, cache, shorter, config, n, l, r, Operator::Add, false, false);
        try_binary(level, solutions, cache, shorter, config, n, l, r, Operator::Sub, false, false);
        try_binary(level, solutions, cache, shorter, config, n, l, r, Operator::Mul, false, false);
        try_divmod(level, solutions, cache, shorter, config, n, l, r);
        try_binary(level, solutions, cache, shorter, config, n, l, r, Operator::Gcd, false, false);
    } else {
        let before_ok = config.ops.or && ok_before_keyword(cache, l);
        let after_ok = config.ops.or && ok_after_keyword(cache, r);
        if width == 2 {
            try_binary(
                level,
                solutions,
                cache,
                shorter,
                config,
                n,
                l,
                r,
                Operator::Or,
                before_ok,
                after_ok,
            );
            try_binary(level, solutions, cache, shorter, config, n, l, r, Operator::Le, false, false);
            try_binary(
                level,
                solutions,
                cache,
                shorter,
                config,
                n,
                l,
                r,
                Operator::BitShl,
                false,
                false,
            );
            try_binary(
                level,
                solutions,
                cache,
                shorter,
                config,
                n,
                l,
                r,
                Operator::BitShr,
                false,
                false,
            );
            try_binary(level, solutions, cache, shorter, config, n, l, r, Operator::Div2, false, false);
            try_binary(level, solutions, cache, shorter, config, n, l, r, Operator::Exp, false, false);
        } else {
            try_binary(
                level,
                solutions,
                cache,
                shorter,
                config,
                n,
                l,
                r,
                Operator::SpaceOr,
                before_ok,
                after_ok,
            );
            try_binary(
                level,
                solutions,
                cache,
                shorter,
                config,
                n,
                l,
                r,
                Operator::OrSpace,
                before_ok,
                after_ok,
            );
        }
    }
    proof {
        assert forall|op: Operator| #[trigger]
            handled(
                &*level,
                solutions@,
                cache@,
                shorter,
                config,
                n as int,
                Origin::Binary { l, r, op },
            ) by {
            let o = Origin::Binary { l, r, op };
            if op.spec_width() != width || !op.spec_is_binary() {
                lemma_handled_vacuous(&*level, solutions@, cache@, shorter, config, n as int, o);
            }
        }
    }
}

/// What one unit of work leaves behind: the expressions it retains and the solutions it
/// found.
pub struct Partial {
    pub level: Level,
    pub solutions: Vec<Expr>,
}

/// What a unit of work owes: its level and list are sound, and they deal with every binary
/// candidate of the length whose right operand is the unit's.
pub open spec fn unit_done<M: OutputMap>(
    part: &Partial,
    cache: Seq<Level>,
    shorter: &Shorter,
    config: &Config<M>,
    n: int,
    r: ExprRef,
) -> bool {
    &&& sound(&part.level, part.solutions@, cache, shorter, config, n)
    &&& forall|l: ExprRef, op: Operator| #[trigger]
        handled(
            &part.level,
            part.solutions@,
            cache,
            shorter,
            config,
            n,
            Origin::Binary { l, r, op },
        )
}

/// One unit of work: every binary candidate of length `n` over one right operand.
pub fn expand_unit<M: OutputMap>(
    cache: &Cache,
    shorter: &Shorter,
    config: &Config<M>,
    n: usize,
    r: ExprRef,
) -> (part: Partial)
    requires
        cache_shaped(cache@),
        shorter.wf(),
        valid_ref(cache@, r),
        cache@.len() == n,
    ensures
        unit_done(&part, cache@, shorter, config, n as int, r),
{
    let mut level = Level::new();
    let mut solutions: Vec<Expr> = Vec::new();
    proof {
        lemma_sound_empty(&level, cache@, shorter, config, n as int);
        assert forall|l: ExprRef, op: Operator| op.spec_width() < 1 implies #[trigger] handled(
            &level,
            solutions@,
            cache@,
            shorter,
            config,
            n as int,
            Origin::Binary { l, r, op },
        ) by {
            lemma_handled_vacuous(
                &level,
                solutions@,
                cache@,
                shorter,
                config,
                n as int,
                Origin::Binary { l, r, op },
            );
        }
    }
    let mut width: usize = 1;
    while width <= 3
        invariant
            1 <= width <= 4,
            cache_shaped(cache@),
            shorter.wf(),
            valid_ref(cache@, r),
            cache@.len() == n,
            sound(&level, solutions@, cache@, shorter, config, n as int),
            forall|l: ExprRef, op: Operator|
                op.spec_width() < width ==> #[trigger] handled(
                    &level,
                    solutions@,
                    cache@,
                    shorter,
                    config,
                    n as int,
                    Origin::Binary { l, r, op },
                ),
        decreases 4 - width,
    {
        if n - r.len > width {
            let left_len = n - r.len - width;
            let count = cache[left_len].len();
            let mut i: usize = 0;
            while i < count
                invariant
                    i <= count,
                    1 <= width <= 3,
                    cache_shaped(cache@),
                    shorter.wf(),
                    valid_ref(cache@, r),
                    cache@.len() == n,
                    left_len + r.len + width == n,
                    count == cache@[left_len as int].keys().len(),
                    sound(&level, solutions@, cache@, shorter, config, n as int),
                    forall|l: ExprRef, op: Operator|
                        op.spec_width() < width || (op.spec_width() == width && l.len == left_len
                            && l.idx < i) ==> #[trigger] handled(
                            &level,
                            solutions@,
                            cache@,
                            shorter,
                            config,
                            n as int,
                            Origin::Binary { l, r, op },
                        ),
                decreases count - i,
            {
                let l = ExprRef { len: left_len, idx: i };
                expand_pair(&mut level, &mut solutions, cache, shorter, config, n, l, r);
                i = i + 1;
            }
        }
        proof {
            assert forall|l: ExprRef, op: Operator| op.spec_width() < width + 1 implies #[trigger]
                handled(
                    &level,
                    solutions@,
                    cache@,
                    shorter,
                    config,
                    n as int,
                    Origin::Binary { l, r, op },
                ) by {
                let o = Origin::Binary { l, r, op };
                if op.spec_width() == width {
                    if !(valid_ref(cache@, l) && l.len + r.len + width == n) {
                        lemma_handled_vacuous(
                            &level,
                            solutions@,
                            cache@,
                            shorter,
                            config,
                            n as int,
                            o,
                        );
                    }
                }
            }
        }
        width = width + 1;
    }
    proof {
        assert forall|l: ExprRef, op: Operator| #[trigger]
            handled(
                &level,
                solutions@,
                cache@,
                shorter,
                config,
                n as int,
                Origin::Binary { l, r, op },
            ) by {
            if op.spec_width() > 3 {
            }
        }
    }
    Partial { level, solutions }
}

} // verus!
