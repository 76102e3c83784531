//! The search itself: a state that grows by one level at a time.

use crate::cache::{
    cache_shaped, node_shape, ref_expr, ref_output, valid_ref, Cache, Level,
};
use crate::candidate::{
    candidate_of, level_sound, origin_len, retained, spec_digits, Candidate, Origin, Shorter,
};
use crate::expand::Partial;
use crate::eval::{lemma_candidate_value, lemma_shape_facts, node_value, outputs_hold};
use crate::expr::{spec_var_bit, Expr, ExprRef, Mask};
use crate::index::{index_covers, index_dominates, index_sound, remember_level};
use crate::num::Num;
use crate::operator::Operator;
use crate::params::{Config, ConfigError, OutputMap};
use crate::search::{find_expressions, find_expressions_sequential, level_built};
use crate::text::{render_into, spec_names, spec_render};
use vstd::prelude::*;

verus! {

/// True for an expression whose top operator is a binary or a prefix operator.
pub open spec fn composed(e: Expr) -> bool {
    e.op.spec_is_binary() || e.op.spec_is_unary()
}

/// No composed expression shares its output with a strictly shorter expression, of a
/// length up to the ceiling, whose precedence class is as great or greater.
#[verifier::opaque]
pub open spec fn pruning_holds(cache: Seq<Level>, ceiling: int) -> bool {
    forall|a: ExprRef, b: ExprRef|
        #![trigger ref_expr(cache, a), ref_expr(cache, b)]
        valid_ref(cache, a) && valid_ref(cache, b) && b.len < a.len && b.len <= ceiling
            && composed(ref_expr(cache, a)) && ref_output(cache, a) == ref_output(cache, b)
            ==> ref_expr(cache, b).op.spec_prec() < ref_expr(cache, a).op.spec_prec()
}

/// The length of the text of a node, from the lengths of its children.
pub open spec fn node_len(e: Expr) -> int {
    if e.op == Operator::Literal {
        if e.literal < 0 {
            1
        } else {
            spec_digits(e.literal as int) as int
        }
    } else if e.op == Operator::Parens {
        e.right.unwrap().len + 2
    } else if e.op.spec_is_unary() {
        e.right.unwrap().len + 1
    } else {
        e.left.unwrap().len + e.right.unwrap().len + e.op.spec_width()
    }
}

/// The variables of a node, from those of its children: a variable leaf has its own bit, a
/// constant none, and an operator the bits of its operands together.
pub open spec fn node_mask(cache: Seq<Level>, e: Expr) -> Mask {
    if e.op == Operator::Literal {
        if e.literal < 0 {
            spec_var_bit(e.spec_var_index() as usize)
        } else {
            0
        }
    } else if e.op == Operator::Parens || e.op.spec_is_unary() {
        ref_expr(cache, e.right.unwrap()).var_mask
    } else {
        ref_expr(cache, e.left.unwrap()).var_mask | ref_expr(cache, e.right.unwrap()).var_mask
    }
}

/// Every expression carries the mask of the variables that occur in it.
#[verifier::opaque]
pub open spec fn masks_hold(cache: Seq<Level>) -> bool {
    forall|at: ExprRef|
        valid_ref(cache, at) ==> (#[trigger] ref_expr(cache, at)).var_mask == node_mask(
            cache,
            ref_expr(cache, at),
        )
}

/// Every expression sits in the level of the length of its text.
#[verifier::opaque]
pub open spec fn lengths_hold(cache: Seq<Level>) -> bool {
    forall|at: ExprRef| valid_ref(cache, at) ==> node_len(#[trigger] ref_expr(cache, at)) == at.len
}

/// What a candidate's node looks like: its children are in the cache and shorter than the
/// candidate, its length is the candidate's, and it is composed just where the candidate
/// was made with an operator.
pub proof fn lemma_candidate_node<M: OutputMap>(cache: Seq<Level>, config: &Config<M>, o: Origin)
    requires
        config.valid(),
        candidate_of(cache, config, o) is Some,
    ensures
        node_shape(cache, candidate_of(cache, config, o).unwrap().expr, origin_len(o)),
        node_len(candidate_of(cache, config, o).unwrap().expr) == origin_len(o),
        composed(candidate_of(cache, config, o).unwrap().expr) <==> (o is Binary || o is Unary),
        candidate_of(cache, config, o).unwrap().expr.var_mask == node_mask(
            cache,
            candidate_of(cache, config, o).unwrap().expr,
        ),
{
    reveal(node_shape);
    match o {
        Origin::Constant { value } => {
            if config.literals@.contains(value) {
                let i = choose|i: int| 0 <= i < config.literals@.len() && config.literals@[i] == value;
                assert(config.literals@[i] >= 0);
            }
        },
        _ => {},
    }
}

/// A node that has its shape in a cache has it in the cache with one more level.
pub proof fn lemma_shape_stays(cache: Seq<Level>, level: Level, e: Expr, len: int)
    requires
        node_shape(cache, e, len),
    ensures
        node_shape(cache.push(level), e, len),
{
    reveal(node_shape);
}

/// The origin of an entry of a sound level.
pub proof fn lemma_entry_origin<M: OutputMap>(
    level: &Level,
    cache: Seq<Level>,
    shorter: &Shorter,
    config: &Config<M>,
    n: int,
    i: int,
) -> (o: Origin)
    requires
        level_sound(level, cache, shorter, config, n),
        0 <= i < level.keys().len(),
    ensures
        retained(cache, shorter, config, n, o),
        candidate_of(cache, config, o) == Some(
            Candidate { output: level.keys()[i], expr: level.vals()[i] },
        ),
{
    reveal(level_sound);
    let e = level.vals()[i];
    choose|o: Origin|
        retained(cache, shorter, config, n, o) && #[trigger] candidate_of(cache, config, o) == Some(
            Candidate { output: level.keys()[i], expr: level.vals()[i] },
        )
}

/// A sound level on top of a cache keeps the cache shaped, the lengths right and the
/// pruning in force.
pub proof fn lemma_push_level<M: OutputMap>(
    cache: Seq<Level>,
    level: Level,
    shorter: &Shorter,
    config: &Config<M>,
)
    requires
        config.valid(),
        cache_shaped(cache),
        lengths_hold(cache),
        masks_hold(cache),
        outputs_hold(cache, config),
        pruning_holds(cache, config.max_cache_length as int),
        index_dominates(shorter, cache, config.max_cache_length as int),
        level.wf(),
        level_sound(&level, cache, shorter, config, cache.len() as int),
    ensures
        cache_shaped(cache.push(level)),
        lengths_hold(cache.push(level)),
        masks_hold(cache.push(level)),
        outputs_hold(cache.push(level), config),
        pruning_holds(cache.push(level), config.max_cache_length as int),
{
    let n = cache.len() as int;
    let grown = cache.push(level);
    let ceiling = config.max_cache_length as int;
    assert forall|m: int| 0 <= m < grown.len() implies (#[trigger] grown[m]).wf() by {
        if m < n {
            assert(cache[m].wf());
        }
    }
    assert forall|at: ExprRef| #[trigger] valid_ref(grown, at) implies node_shape(
        grown,
        ref_expr(grown, at),
        at.len as int,
    ) by {
        if at.len < n {
            assert(valid_ref(cache, at));
            lemma_shape_stays(cache, level, ref_expr(cache, at), at.len as int);
        } else {
            let o = lemma_entry_origin(&level, cache, shorter, config, n, at.idx as int);
            lemma_candidate_node(cache, config, o);
            lemma_shape_stays(cache, level, ref_expr(grown, at), at.len as int);
        }
    }
    assert(lengths_hold(grown)) by {
        reveal(lengths_hold);
        assert forall|at: ExprRef| valid_ref(grown, at) implies node_len(
            #[trigger] ref_expr(grown, at),
        ) == at.len by {
            if at.len < n {
                assert(valid_ref(cache, at));
                assert(ref_expr(grown, at) == ref_expr(cache, at));
            } else {
                let o = lemma_entry_origin(&level, cache, shorter, config, n, at.idx as int);
                lemma_candidate_node(cache, config, o);
            }
        }
    }
    assert(masks_hold(grown)) by {
        reveal(masks_hold);
        assert forall|at: ExprRef| valid_ref(grown, at) implies (#[trigger] ref_expr(
            grown,
            at,
        )).var_mask == node_mask(grown, ref_expr(grown, at)) by {
            let e = ref_expr(grown, at);
            assert(node_shape(grown, e, at.len as int));
            lemma_shape_facts(grown, e, at.len as int);
            if at.len < n {
                assert(valid_ref(cache, at));
                assert(e == ref_expr(cache, at));
                assert(e.var_mask == node_mask(cache, e));
            } else {
                let o = lemma_entry_origin(&level, cache, shorter, config, n, at.idx as int);
                lemma_candidate_node(cache, config, o);
            }
            if e.left is Some {
                assert(ref_expr(grown, e.left.unwrap()) == ref_expr(cache, e.left.unwrap()));
            }
            if e.right is Some {
                assert(ref_expr(grown, e.right.unwrap()) == ref_expr(cache, e.right.unwrap()));
            }
        }
    }
    assert(outputs_hold(grown, config)) by {
        reveal(outputs_hold);
        assert forall|at: ExprRef| valid_ref(grown, at) implies node_value(
            grown,
            config,
            #[trigger] ref_expr(grown, at),
        ) == Some(ref_output(grown, at)) by {
            let e = ref_expr(grown, at);
            assert(node_shape(grown, e, at.len as int));
            lemma_shape_facts(grown, e, at.len as int);
            if at.len < n {
                assert(valid_ref(cache, at));
                assert(e == ref_expr(cache, at));
                assert(node_value(cache, config, e) == Some(ref_output(cache, at)));
            } else {
                let o = lemma_entry_origin(&level, cache, shorter, config, n, at.idx as int);
                lemma_candidate_value(cache, config, o);
            }
            if e.left is Some {
                assert(ref_output(grown, e.left.unwrap()) == ref_output(cache, e.left.unwrap()));
            }
            if e.right is Some {
                assert(ref_output(grown, e.right.unwrap()) == ref_output(cache, e.right.unwrap()));
            }
        }
    }
    assert(pruning_holds(grown, ceiling)) by {
        reveal(pruning_holds);
        reveal(index_dominates);
        assert forall|a: ExprRef, b: ExprRef|
            #![trigger ref_expr(grown, a), ref_expr(grown, b)]
            valid_ref(grown, a) && valid_ref(grown, b) && b.len < a.len && b.len <= ceiling
                && composed(ref_expr(grown, a)) && ref_output(grown, a) == ref_output(
                grown,
                b,
            ) implies ref_expr(grown, b).op.spec_prec() < ref_expr(grown, a).op.spec_prec() by {
            assert(valid_ref(cache, b));
            assert(ref_expr(grown, b) == ref_expr(cache, b));
            if a.len < n {
                assert(valid_ref(cache, a));
                assert(ref_expr(grown, a) == ref_expr(cache, a));
            } else {
                let o = lemma_entry_origin(&level, cache, shorter, config, n, a.idx as int);
                lemma_candidate_node(cache, config, o);
                assert(index_covers(
                    shorter,
                    ref_output(cache, b),
                    ref_expr(cache, b).op.spec_prec(),
                ));
            }
        }
    }
}

/// An index that is right for a cache is right for the cache with one more level, as long
/// as that level lies above the ceiling or is recorded afterwards.
pub proof fn lemma_index_stays(shorter: &Shorter, cache: Seq<Level>, level: Level, ceiling: int)
    requires
        index_sound(shorter, cache, ceiling),
        index_dominates(shorter, cache, ceiling),
    ensures
        index_sound(shorter, cache.push(level), ceiling),
        cache.len() > ceiling ==> index_dominates(shorter, cache.push(level), ceiling),
{
    let grown = cache.push(level);
    assert(index_sound(shorter, grown, ceiling)) by {
        reveal(index_sound);
        assert forall|k: Seq<Num>| #[trigger] shorter.contains(k) implies exists|at: ExprRef|
            valid_ref(grown, at) && at.len <= ceiling && ref_output(grown, at) == k
                && (#[trigger] ref_expr(grown, at)).op.spec_prec() == shorter.value_of(k) by {
            let at = choose|at: ExprRef|
                valid_ref(cache, at) && at.len <= ceiling && ref_output(cache, at) == k
                    && (#[trigger] ref_expr(cache, at)).op.spec_prec() == shorter.value_of(k);
            assert(valid_ref(grown, at) && ref_output(grown, at) == k && ref_expr(
                grown,
                at,
            ).op.spec_prec() == shorter.value_of(k));
        }
    }
    if cache.len() > ceiling {
        reveal(index_dominates);
        assert forall|at: ExprRef| valid_ref(grown, at) && at.len <= ceiling implies index_covers(
            shorter,
            ref_output(grown, at),
            (#[trigger] ref_expr(grown, at)).op.spec_prec(),
        ) by {
            assert(valid_ref(cache, at));
            assert(ref_expr(cache, at) == ref_expr(grown, at));
        }
    }
}

/// A search in progress: the configuration, the levels built so far, and the index of the
/// outputs seen at short lengths.
pub struct Search<M: OutputMap> {
    config: Config<M>,
    cache: Cache,
    shorter: Shorter,
}

impl<M: OutputMap> Search<M> {
    /// The configuration of the search.
    pub closed spec fn spec_config(&self) -> &Config<M> {
        &self.config
    }

    /// The levels built so far, indexed by length.
    pub closed spec fn spec_cache(&self) -> Seq<Level> {
        self.cache@
    }

    /// The index of the outputs seen at short lengths.
    pub closed spec fn spec_shorter(&self) -> &Shorter {
        &self.shorter
    }

    /// What holds of a search between two levels.
    pub open spec fn wf(&self) -> bool {
        &&& self.spec_config().valid()
        &&& cache_shaped(self.spec_cache())
        &&& self.spec_shorter().wf()
        &&& index_dominates(
            self.spec_shorter(),
            self.spec_cache(),
            self.spec_config().max_cache_length as int,
        )
        &&& index_sound(
            self.spec_shorter(),
            self.spec_cache(),
            self.spec_config().max_cache_length as int,
        )
        &&& pruning_holds(self.spec_cache(), self.spec_config().max_cache_length as int)
        &&& lengths_hold(self.spec_cache())
        &&& masks_hold(self.spec_cache())
        &&& outputs_hold(self.spec_cache(), self.spec_config())
    }

    /// Starts a search: refuses a configuration that is not valid, and else begins with no
    /// level built but the empty level of length zero.
    pub fn new(config: Config<M>) -> (r: Result<Self, ConfigError>)
        ensures
            r is Ok <==> config.valid(),
            match r {
                Ok(s) => s.wf() && s.spec_config() == config && s.spec_cache().len() == 1
                    && s.spec_shorter().keys().len() == 0,
                Err(e) => config.spec_validate() == Err::<(), ConfigError>(e),
            },
    {
        match config.validate() {
            Err(e) => Err(e),
            Ok(_) => {
                let mut cache: Cache = Vec::new();
                cache.push(Level::new());
                let shorter = Shorter::new();
                let s = Search { config, cache, shorter };
                proof {
                    reveal(index_dominates);
                    reveal(index_sound);
                    reveal(pruning_holds);
                    reveal(lengths_hold);
                    reveal(masks_hold);
                    reveal(outputs_hold);
                    assert(s.cache@[0].keys().len() == 0);
                    assert forall|at: ExprRef| valid_ref(s.cache@, at) implies false by {}
                }
                Ok(s)
            },
        }
    }

    /// What one step of the search does. Past the greatest length nothing changes and
    /// nothing is returned; else the level of the next length is built from the levels so
    /// far and is added to them, and the solutions of that length are returned.
    pub open spec fn advanced(before: &Self, after: &Self, r: Option<Vec<Expr>>) -> bool {
        let n = before.spec_cache().len();
        if n > before.spec_config().max_length {
            r is None && *after == *before
        } else {
            &&& r is Some
            &&& after.spec_config() == before.spec_config()
            &&& after.spec_cache().len() == n + 1
            &&& after.spec_cache().drop_last() == before.spec_cache()
            &&& level_built(
                &after.spec_cache().last(),
                r.unwrap()@,
                before.spec_cache(),
                before.spec_shorter(),
                before.spec_config(),
                n as int,
            )
        }
    }

    /// Takes a built level into the search: the level is added to the cache and, up to
    /// the ceiling, recorded in the index.
    fn absorb(&mut self, built: Partial) -> (solutions: Vec<Expr>)
        requires
            old(self).wf(),
            level_built(
                &built.level,
                built.solutions@,
                old(self).spec_cache(),
                old(self).spec_shorter(),
                old(self).spec_config(),
                old(self).spec_cache().len() as int,
            ),
        ensures
            final(self).wf(),
            final(self).spec_config() == old(self).spec_config(),
            final(self).spec_cache() == old(self).spec_cache().push(built.level),
            solutions == built.solutions,
    {
        let n = self.cache.len();
        let Partial { level, solutions } = built;
        proof {
            lemma_push_level(self.cache@, level, &self.shorter, &self.config);
            lemma_index_stays(
                &self.shorter,
                self.cache@,
                level,
                self.config.max_cache_length as int,
            );
        }
        self.cache.push(level);
        let total = self.cache.len();
        if n <= self.config.max_cache_length {
            proof {
                assert(total == self.cache@.len());
                assert(self.cache@.drop_last() =~= old(self).cache@);
            }
            remember_level(
                &mut self.shorter,
                &self.cache[n],
                Ghost(self.cache@),
                Ghost(self.config.max_cache_length as int),
            );
        }
        solutions
    }

    /// Builds the next level on the calling thread.
    pub fn advance_sequential(&mut self) -> (r: Option<Vec<Expr>>)
        requires
            old(self).wf(),
        ensures
            final(self).wf(),
            Self::advanced(&*old(self), &*final(self), r),
    {
        let n = self.cache.len();
        if n > self.config.max_length {
            return None;
        }
        let built = find_expressions_sequential(&self.cache, n, &self.shorter, &self.config);
        let solutions = self.absorb(built);
        proof {
            assert(self.cache@.drop_last() =~= old(self).cache@);
        }
        Some(solutions)
    }

    /// The length of the level that is built next.
    pub fn next_length(&self) -> (n: usize)
        ensures
            n == self.spec_cache().len(),
    {
        self.cache.len()
    }

    /// The configuration of the search.
    pub fn config(&self) -> (c: &Config<M>)
        ensures
            c == self.spec_config(),
    {
        &self.config
    }

    /// The level of a length that is built.
    pub fn level(&self, n: usize) -> (l: &Level)
        requires
            n < self.spec_cache().len(),
        ensures
            *l == self.spec_cache()[n as int],
    {
        &self.cache[n]
    }

    /// The text of an expression whose operands are in the levels built so far.
    pub fn render(&self, e: &Expr) -> (s: String)
        requires
            self.wf(),
        ensures
            s@ == spec_render(
                self.spec_cache(),
                spec_names(self.spec_config().inputs@),
                *e,
                self.spec_cache().len(),
            ),
    {
        let mut out = String::new();
        render_into(&self.cache, &self.config.inputs, *e, self.cache.len(), &mut out);
        assert(out@ =~= spec_render(
            self.spec_cache(),
            spec_names(self.spec_config().inputs@),
            *e,
            self.spec_cache().len(),
        ));
        out
    }

    /// The index of the outputs seen at short lengths.
    pub fn shorter(&self) -> (s: &Shorter)
        ensures
            s == self.spec_shorter(),
    {
        &self.shorter
    }

    /// The levels built so far.
    pub fn cache(&self) -> (c: &Cache)
        ensures
            c@ == self.spec_cache(),
    {
        &self.cache
    }
}

impl<M: OutputMap + Sync> Search<M> {
    /// Builds the next level with the work spread over the thread pool.
    pub fn advance(&mut self) -> (r: Option<Vec<Expr>>)
        requires
            old(self).wf(),
        ensures
            final(self).wf(),
            Self::advanced(&*old(self), &*final(self), r),
    {
        let n = self.cache.len();
        if n > self.config.max_length {
            return None;
        }
        let built = find_expressions(&self.cache, n, &self.shorter, &self.config);
        let solutions = self.absorb(built);
        proof {
            assert(self.cache@.drop_last() =~= old(self).cache@);
        }
        Some(solutions)
    }
}

} // verus!
