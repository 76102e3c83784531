//! What holds of the levels and solutions that a search builds.

use crate::cache::{cache_shaped, node_shape, ref_expr, ref_output, valid_ref, Level};
use crate::candidate::{
    candidate_of, covers, reported, retained, solutions_sound, spec_digits, Candidate, Origin,
    Shorter,
};
use crate::engine::{
    composed, lemma_candidate_node, lemma_entry_origin, lengths_hold, masks_hold, node_len,
    node_mask, pruning_holds, Search,
};
use crate::eval::{
    lemma_cached_eval, lemma_candidate_value, lemma_node_eval, lemma_shape_facts, node_value,
    outputs_hold, spec_eval,
};
use crate::expr::{Expr, ExprRef};
use crate::num::Num;
use crate::operator::Operator;
use crate::params::{Config, OutputMap};
use crate::search::{level_built, level_complete, solutions_complete};
use crate::text::{
    child_text, child_tokens, lemma_render_len, spec_names, spec_render, spec_tokens,
};
use crate::vector::spec_constant;
use vstd::prelude::*;

verus! {

/// Keep-best, one way: a built level holds the output of every candidate of its length
/// that is to be retained, with a precedence code at least as great as the candidate's.
pub proof fn law_level_covers_candidates<M: OutputMap>(
    level: &Level,
    listed: Seq<Expr>,
    cache: Seq<Level>,
    shorter: &Shorter,
    config: &Config<M>,
    n: int,
    o: Origin,
)
    requires
        level_built(level, listed, cache, shorter, config, n),
        retained(cache, shorter, config, n, o),
    ensures
        level.contains(candidate_of(cache, config, o).unwrap().output),
        level.value_of(candidate_of(cache, config, o).unwrap().output).op.spec_code()
            >= candidate_of(cache, config, o).unwrap().expr.op.spec_code(),
{
    reveal(level_complete);
}

/// Keep-best, the other way: what a built level holds for an output is a candidate of its
/// length that is to be retained and yields that output.
pub proof fn law_level_holds_candidates<M: OutputMap>(
    level: &Level,
    listed: Seq<Expr>,
    cache: Seq<Level>,
    shorter: &Shorter,
    config: &Config<M>,
    n: int,
    output: Seq<Num>,
) -> (o: Origin)
    requires
        level_built(level, listed, cache, shorter, config, n),
        level.contains(output),
    ensures
        retained(cache, shorter, config, n, o),
        candidate_of(cache, config, o) == Some(
            Candidate { output, expr: level.value_of(output) },
        ),
{
    level.lemma_wf();
    let i = level.index_of(output);
    assert(level.keys()[i] == output);
    lemma_entry_origin(level, cache, shorter, config, n, i)
}

/// Every solution of a built level is a candidate of its length whose output matches the
/// goal, and every such candidate is among the solutions.
pub proof fn law_solutions_are_the_matches<M: OutputMap>(
    level: &Level,
    listed: Seq<Expr>,
    cache: Seq<Level>,
    shorter: &Shorter,
    config: &Config<M>,
    n: int,
)
    requires
        level_built(level, listed, cache, shorter, config, n),
    ensures
        forall|e: Expr|
            listed.contains(e) <==> exists|o: Origin|
                reported(cache, config, n, o) && (#[trigger] candidate_of(cache, config, o)).unwrap().expr
                    == e,
{
    reveal(solutions_sound);
    reveal(solutions_complete);
    assert forall|e: Expr| listed.contains(e) implies exists|o: Origin|
        reported(cache, config, n, o) && (#[trigger] candidate_of(cache, config, o)).unwrap().expr
            == e by {
        let i = choose|i: int| 0 <= i < listed.len() && listed[i] == e;
        assert(listed[i] == e);
    }
}

/// Determinism: two levels built for the same length from the same levels below, in
/// whatever order or grouping, hold the same outputs with the same precedence codes, and
/// their lists hold the same solutions.
pub proof fn law_built_levels_agree<M: OutputMap>(
    one: &Level,
    listed_one: Seq<Expr>,
    two: &Level,
    listed_two: Seq<Expr>,
    cache: Seq<Level>,
    shorter: &Shorter,
    config: &Config<M>,
    n: int,
)
    requires
        level_built(one, listed_one, cache, shorter, config, n),
        level_built(two, listed_two, cache, shorter, config, n),
    ensures
        forall|k: Seq<Num>| #[trigger] one.contains(k) <==> two.contains(k),
        forall|k: Seq<Num>|
            one.contains(k) ==> (#[trigger] one.value_of(k)).op.spec_code() == two.value_of(
                k,
            ).op.spec_code(),
        forall|e: Expr| #[trigger] listed_one.contains(e) <==> listed_two.contains(e),
{
    assert forall|k: Seq<Num>| #[trigger] one.contains(k) implies two.contains(k)
        && one.value_of(k).op.spec_code() <= two.value_of(k).op.spec_code() by {
        let o = law_level_holds_candidates(one, listed_one, cache, shorter, config, n, k);
        law_level_covers_candidates(two, listed_two, cache, shorter, config, n, o);
    }
    assert forall|k: Seq<Num>| #[trigger] two.contains(k) implies one.contains(k)
        && two.value_of(k).op.spec_code() <= one.value_of(k).op.spec_code() by {
        let o = law_level_holds_candidates(two, listed_two, cache, shorter, config, n, k);
        law_level_covers_candidates(one, listed_one, cache, shorter, config, n, o);
    }
    assert forall|k: Seq<Num>| one.contains(k) implies (#[trigger] one.value_of(k)).op.spec_code()
        == two.value_of(k).op.spec_code() by {
        assert(two.contains(k));
    }
    law_solutions_are_the_matches(one, listed_one, cache, shorter, config, n);
    law_solutions_are_the_matches(two, listed_two, cache, shorter, config, n);
}

/// Pruning: in a search between two levels, no composed expression shares its output with
/// a strictly shorter expression, of a length up to the ceiling of the index, that has an
/// equal or greater precedence class; the shorter one's precedence code is smaller too.
pub proof fn law_pruning<M: OutputMap>(search: &Search<M>, a: ExprRef, b: ExprRef)
    requires
        search.wf(),
        valid_ref(search.spec_cache(), a),
        valid_ref(search.spec_cache(), b),
        b.len < a.len,
        b.len <= search.spec_config().max_cache_length,
        composed(ref_expr(search.spec_cache(), a)),
        ref_output(search.spec_cache(), a) == ref_output(search.spec_cache(), b),
    ensures
        ref_expr(search.spec_cache(), b).op.spec_prec() < ref_expr(
            search.spec_cache(),
            a,
        ).op.spec_prec(),
        ref_expr(search.spec_cache(), b).op.spec_code() < ref_expr(
            search.spec_cache(),
            a,
        ).op.spec_code(),
{
    reveal(pruning_holds);
}

/// The tokens of a node whose children are cached expressions are counted from the
/// children's lengths.
pub proof fn lemma_node_tokens(cache: Seq<Level>, e: Expr, bound: int)
    requires
        cache_shaped(cache),
        lengths_hold(cache),
        bound >= 0,
        node_shape(cache, e, bound),
    ensures
        spec_tokens(cache, e, bound as nat) == node_len(e),
    decreases bound, 0int,
{
    lemma_shape_facts(cache, e, bound);
    if e.op != Operator::Literal {
        if e.left is Some {
            lemma_cached_tokens(cache, e.left.unwrap());
        }
        if e.right is Some {
            lemma_cached_tokens(cache, e.right.unwrap());
        }
        assert(e.op == Operator::Parens || e.op.spec_is_unary() || e.op.spec_is_binary());
        assert(child_tokens(cache, e.right, bound as nat) == e.right.unwrap().len);
        if e.op.spec_is_binary() {
            assert(child_tokens(cache, e.left, bound as nat) == e.left.unwrap().len);
        } else {
            assert(child_tokens(cache, e.left, bound as nat) == 0);
        }
    }
}

/// Length fidelity in the cache: every cached expression has as many tokens as the length
/// of the level that holds it.
pub proof fn lemma_cached_tokens(cache: Seq<Level>, at: ExprRef)
    requires
        cache_shaped(cache),
        lengths_hold(cache),
        valid_ref(cache, at),
    ensures
        spec_tokens(cache, ref_expr(cache, at), at.len as nat) == at.len,
    decreases at.len, 1int,
{
    assert(node_len(ref_expr(cache, at)) == at.len) by {
        reveal(lengths_hold);
    }
    lemma_node_tokens(cache, ref_expr(cache, at), at.len as int);
}

/// Length fidelity of the solutions: every solution that a step of the search returns has
/// as many tokens as the length of the level at which it was found.
pub proof fn law_solution_length<M: OutputMap>(
    before: &Search<M>,
    after: &Search<M>,
    r: Option<Vec<Expr>>,
    i: int,
)
    requires
        before.wf(),
        Search::advanced(before, after, r),
        r is Some,
        0 <= i < r.unwrap()@.len(),
    ensures
        spec_tokens(
            before.spec_cache(),
            r.unwrap()@[i],
            before.spec_cache().len(),
        ) == before.spec_cache().len(),
{
    let cache = before.spec_cache();
    let config = before.spec_config();
    let n = cache.len() as int;
    let listed = r.unwrap()@;
    let e = listed[i];
    reveal(solutions_sound);
    let o = choose|o: Origin|
        reported(cache, config, n, o) && (#[trigger] candidate_of(cache, config, o)).unwrap().expr
            == e;
    lemma_candidate_node(cache, config, o);
    lemma_node_tokens(cache, e, n);
}

/// Soundness of the solutions: every solution that a step of the search returns evaluates,
/// from its leaves up, to a vector that the mapping takes to the goal.
pub proof fn law_solution_value<M: OutputMap>(
    before: &Search<M>,
    after: &Search<M>,
    r: Option<Vec<Expr>>,
    i: int,
)
    requires
        before.wf(),
        Search::advanced(before, after, r),
        r is Some,
        0 <= i < r.unwrap()@.len(),
    ensures
        spec_eval(
            before.spec_cache(),
            before.spec_config(),
            r.unwrap()@[i],
            before.spec_cache().len(),
        ) is Some,
        before.spec_config().is_goal(
            spec_eval(
                before.spec_cache(),
                before.spec_config(),
                r.unwrap()@[i],
                before.spec_cache().len(),
            ).unwrap(),
        ),
{
    let cache = before.spec_cache();
    let config = before.spec_config();
    let n = cache.len() as int;
    let listed = r.unwrap()@;
    let e = listed[i];
    reveal(solutions_sound);
    let o = choose|o: Origin|
        reported(cache, config, n, o) && (#[trigger] candidate_of(cache, config, o)).unwrap().expr
            == e;
    lemma_candidate_node(cache, config, o);
    lemma_candidate_value(cache, config, o);
    lemma_node_eval(cache, config, e, n);
}

/// Soundness of the levels: in a search between two levels, every cached expression
/// evaluates, from its leaves up, to the output it is stored under.
pub proof fn law_cached_value<M: OutputMap>(search: &Search<M>, at: ExprRef)
    requires
        search.wf(),
        valid_ref(search.spec_cache(), at),
    ensures
        spec_eval(
            search.spec_cache(),
            search.spec_config(),
            ref_expr(search.spec_cache(), at),
            at.len as nat,
        ) == Some(ref_output(search.spec_cache(), at)),
{
    lemma_cached_eval(search.spec_cache(), search.spec_config(), at);
}

/// The text of a child of a node does not change when a level is added to the cache or the
/// bound is raised.
proof fn lemma_child_text_stable(
    cache: Seq<Level>,
    level: Level,
    names: Seq<Seq<char>>,
    child: Option<ExprRef>,
    bound: int,
    above: int,
)
    requires
        cache_shaped(cache),
        0 <= bound <= above,
        child is Some ==> valid_ref(cache, child.unwrap()) && child.unwrap().len < bound,
    ensures
        child_text(cache.push(level), names, child, above as nat) == child_text(
            cache,
            names,
            child,
            bound as nat,
        ),
    decreases bound, 0int,
{
    if child is Some {
        let c = child.unwrap();
        let grown = cache.push(level);
        assert(valid_ref(grown, c));
        assert(ref_expr(grown, c) == ref_expr(cache, c));
        lemma_render_stable(cache, level, names, ref_expr(cache, c), c.len as int, c.len as int);
    }
}

/// The text of an expression whose operands are cached does not change when a level is
/// added to the cache or the bound is raised.
pub proof fn lemma_render_stable(
    cache: Seq<Level>,
    level: Level,
    names: Seq<Seq<char>>,
    e: Expr,
    bound: int,
    above: int,
)
    requires
        cache_shaped(cache),
        0 <= bound <= above,
        node_shape(cache, e, bound),
    ensures
        spec_render(cache.push(level), names, e, above as nat) == spec_render(
            cache,
            names,
            e,
            bound as nat,
        ),
    decreases bound, 1int,
{
    lemma_shape_facts(cache, e, bound);
    if e.op != Operator::Literal {
        lemma_child_text_stable(cache, level, names, e.left, bound, above);
        lemma_child_text_stable(cache, level, names, e.right, bound, above);
    }
}

/// Length fidelity of the text: where every variable's name is one character, the text of
/// every solution that a step of the search returns, rendered after the step, has as many
/// characters as the length of the level at which the solution was found.
pub proof fn law_solution_text_length<M: OutputMap>(
    before: &Search<M>,
    after: &Search<M>,
    r: Option<Vec<Expr>>,
    i: int,
)
    requires
        before.wf(),
        Search::advanced(before, after, r),
        r is Some,
        0 <= i < r.unwrap()@.len(),
        forall|j: int|
            0 <= j < before.spec_config().inputs@.len() ==> (
            #[trigger] before.spec_config().inputs@[j]).name@.len() == 1,
    ensures
        spec_render(
            after.spec_cache(),
            spec_names(after.spec_config().inputs@),
            r.unwrap()@[i],
            after.spec_cache().len(),
        ).len() == before.spec_cache().len(),
{
    let cache = before.spec_cache();
    let config = before.spec_config();
    let n = cache.len() as int;
    let names = spec_names(config.inputs@);
    let e = r.unwrap()@[i];
    let level = after.spec_cache().last();
    assert(after.spec_cache() =~= cache.push(level));
    reveal(solutions_sound);
    let o = choose|o: Origin|
        reported(cache, config, n, o) && (#[trigger] candidate_of(cache, config, o)).unwrap().expr
            == e;
    lemma_candidate_node(cache, config, o);
    lemma_candidate_value(cache, config, o);
    lemma_render_stable(cache, level, names, e, n, n + 1);
    assert forall|at: ExprRef|
        valid_ref(cache, at) && (#[trigger] ref_expr(cache, at)).spec_is_variable() implies ref_expr(
        cache,
        at,
    ).spec_var_index() < names.len() by {
        reveal(outputs_hold);
        assert(node_value(cache, config, ref_expr(cache, at)) is Some);
    }
    lemma_render_len(cache, names, e, n as nat);
    law_solution_length(before, after, r, i);
}

/// Variable masks: in a search between two levels, every cached expression carries the
/// bit of its variable if it is a variable, no bit if it is a constant, and else the bits
/// of its operands together.
pub proof fn law_cached_mask<M: OutputMap>(search: &Search<M>, at: ExprRef)
    requires
        search.wf(),
        valid_ref(search.spec_cache(), at),
    ensures
        ref_expr(search.spec_cache(), at).var_mask == node_mask(
            search.spec_cache(),
            ref_expr(search.spec_cache(), at),
        ),
{
    reveal(masks_hold);
}

/// Length fidelity of the levels: in a search between two levels, every cached expression
/// has as many tokens as the length of its level.
pub proof fn law_cached_length<M: OutputMap>(search: &Search<M>, at: ExprRef)
    requires
        search.wf(),
        valid_ref(search.spec_cache(), at),
    ensures
        spec_tokens(search.spec_cache(), ref_expr(search.spec_cache(), at), at.len as nat)
            == at.len,
{
    lemma_cached_tokens(search.spec_cache(), at);
}

/// Base cases: the level of length one holds exactly the vectors of the input variables
/// and the constant vectors of the constants with one decimal digit, each once and each
/// with a leaf.
pub proof fn law_base_cases<M: OutputMap>(
    level: &Level,
    listed: Seq<Expr>,
    cache: Seq<Level>,
    shorter: &Shorter,
    config: &Config<M>,
)
    requires
        config.valid(),
        cache_shaped(cache),
        cache.len() == 1,
        level_built(level, listed, cache, shorter, config, 1),
    ensures
        level.keys().no_duplicates(),
        forall|index: int|
            0 <= index < config.inputs@.len() ==> level.contains(
                (#[trigger] config.inputs@[index]).vec@,
            ),
        forall|value: Num|
            config.is_literal(value) && spec_digits(value as int) == 1 ==> level.contains(
                #[trigger] spec_constant(value, config.dim()),
            ),
        forall|k: Seq<Num>| #[trigger]
            level.contains(k) ==> level.value_of(k).op == Operator::Literal && ((exists|index: int|
                0 <= index < config.inputs@.len() && (#[trigger] config.inputs@[index]).vec@ == k)
                || (exists|value: Num|
                config.is_literal(value) && spec_digits(value as int) == 1 && #[trigger] spec_constant(
                    value,
                    config.dim(),
                ) == k)),
{
    level.lemma_wf();
    reveal(level_complete);
    assert forall|index: int| 0 <= index < config.inputs@.len() implies level.contains(
        (#[trigger] config.inputs@[index]).vec@,
    ) by {
        let o = Origin::Variable { index: index as usize };
        assert(retained(cache, shorter, config, 1, o));
        assert(covers(level, candidate_of(cache, config, o).unwrap()));
    }
    assert forall|value: Num|
        config.is_literal(value) && spec_digits(value as int) == 1 implies level.contains(
        #[trigger] spec_constant(value, config.dim()),
    ) by {
        let o = Origin::Constant { value };
        assert(retained(cache, shorter, config, 1, o));
        assert(covers(level, candidate_of(cache, config, o).unwrap()));
    }
    assert forall|k: Seq<Num>| #[trigger] level.contains(k) implies level.value_of(k).op
        == Operator::Literal && ((exists|index: int|
        0 <= index < config.inputs@.len() && (#[trigger] config.inputs@[index]).vec@ == k)
        || (exists|value: Num|
        config.is_literal(value) && spec_digits(value as int) == 1 && #[trigger] spec_constant(
            value,
            config.dim(),
        ) == k)) by {
        let o = law_level_holds_candidates(level, listed, cache, shorter, config, 1, k);
        match o {
            Origin::Variable { index } => {
                assert(config.inputs@[index as int].vec@ == k);
            },
            Origin::Constant { value } => {
                assert(spec_constant(value, config.dim()) == k);
            },
            _ => {},
        }
    }
}

} // verus!
