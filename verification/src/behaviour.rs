//! Engines that are decided by what they are given.
//!
//! An engine may answer as it likes, and need not answer twice in the same way. Here
//! are the engines of which every method that a run calls is a function of the engine
//! and of what its arguments hold.

use vstd::prelude::*;

use crate::ast::{Instr, Program, ProgramKind};
use crate::cache::{CacheData, StateCache};
use crate::contents::{
    cache_content, check_content, env_content, lemma_cache_read, lemma_same_ancestor,
    lemma_same_callsites, query_content, CacheContent, CrumbContent, EnvContent, QueryContent,
};
use crate::engine::{Engine, LoopFacts, SubsumptionQuery};
use crate::env::{InsnAux, VerifierEnv};
use crate::machine::{NumericDomain, State, StateView};
use crate::pruning::{
    clean_candidates, cleanable, cleanings_made, decided_early, in_lineage, iterates, masks_of,
    may_be_own_past, may_progress, may_repeat, nth_ancestor, relaxed_query, relaxed_reply,
    repeat_reply, states_to_clean, trap_set, uncleaned, Cleaning, Early, LINEAGE_STEPS,
};

verus! {

// ---------------------------------------------------------------------------
// Engines that are decided by what they are given
// ---------------------------------------------------------------------------

/// How an engine behaves in a run: what each method that a run calls gives, and what
/// it leaves of the engine and of what it was handed.
#[verifier::reject_recursive_types(E)]
pub struct Behaviour<E> {
    pub subprogs: spec_fn(E, Program) -> Result<(), Seq<char>>,
    pub stack: spec_fn(E, Program, ProgramKind, bool) -> Result<(), Seq<char>>,
    pub prune_point: spec_fn(E, EnvContent, usize) -> bool,
    pub loop_facts: spec_fn(E, EnvContent, StateView, Program) -> LoopFacts,
    pub open_marks: spec_fn(E, EnvContent, StateView) -> bool,
    pub iter_depths: spec_fn(E, StateView, StateView) -> bool,
    pub exact_equal: spec_fn(E, StateView, StateView) -> bool,
    pub subsumed: spec_fn(E, StateView, StateView, QueryContent) -> bool,
    pub back_edge: spec_fn(E, EnvContent, usize, StateView) -> bool,
    pub proof_checked: spec_fn(E, EnvContent, Program, usize, u32) -> Option<u64>,
    pub cfg: spec_fn(E, Seq<InsnAux>, Program) -> (E, Seq<InsnAux>, Result<(), Seq<char>>),
    pub liveness: spec_fn(E, Seq<InsnAux>, Program) -> (E, Seq<InsnAux>),
    pub scc: spec_fn(E, Program) -> E,
    pub anchors: spec_fn(E, NumericDomain) -> (E, NumericDomain),
    pub clean: spec_fn(E, CacheContent, u32) -> (E, CacheContent),
    pub precision: spec_fn(E, CacheContent, Seq<CrumbContent>, StateView, StateView) -> (
        E,
        CacheContent,
    ),
    pub backedge: spec_fn(E, CacheContent, StateView, u32, usize) -> (E, CacheContent),
    pub transfer: spec_fn(E, EnvContent, StateView, Instr) -> (E, EnvContent, Seq<StateView>),
    pub adapt: spec_fn(E, EnvContent, StateView) -> (E, StateView),
    pub prepare: spec_fn(E, EnvContent, StateView) -> (E, StateView),
    pub begin: spec_fn(E, StateView) -> (E, StateView),
    pub end_step: spec_fn(E) -> E,
    pub end_path: spec_fn(E, CacheContent, Seq<usize>, Option<u32>) -> (E, CacheContent),
    pub refine: spec_fn(E, StateView, Seq<u64>) -> StateView,
}

/// Whether the engine answers every question as a behaviour says.
#[verifier::opaque]
pub open spec fn by_contents<E: Engine>(b: Behaviour<E>) -> bool {
    &&& forall|e: &E, prog: &Program, r: Result<(), String>| #[trigger]
        call_ensures(E::check_subprogs, (e, prog), r) ==> check_content(r) == (b.subprogs)(
            *e,
            *prog,
        )
    &&& forall|e: &E, prog: &Program, kind: ProgramKind, private: bool, r: Result<(), String>|
        #[trigger]
        call_ensures(E::check_stack_overflow, (e, prog, kind, private), r) ==> check_content(r) == (
        b.stack)(*e, *prog, kind, private)
    &&& forall|e: &E, v: &VerifierEnv, pc: usize, r: bool| #[trigger]
        call_ensures(E::is_prune_point, (e, v, pc), r) ==> r == (b.prune_point)(
            *e,
            env_content(*v),
            pc,
        )
    &&& forall|e: &E, v: &VerifierEnv, s: &State, prog: &Program, r: LoopFacts| #[trigger]
        call_ensures(E::loop_facts, (e, v, s, prog), r) ==> r == (b.loop_facts)(
            *e,
            env_content(*v),
            s@,
            *prog,
        )
    &&& forall|e: &E, v: &VerifierEnv, k: &State, r: bool| #[trigger]
        call_ensures(E::incomplete_read_marks, (e, v, k), r) ==> r == (b.open_marks)(
            *e,
            env_content(*v),
            k@,
        )
    &&& forall|e: &E, k: &State, s: &State, r: bool| #[trigger]
        call_ensures(E::iter_depths_differ, (e, k, s), r) ==> r == (b.iter_depths)(*e, k@, s@)
    &&& forall|e: &E, k: &State, s: &State, r: bool| #[trigger]
        call_ensures(E::exact_equal, (e, k, s), r) ==> r == (b.exact_equal)(*e, k@, s@)
    &&& forall|e: &E, s: &State, k: &State, q: &SubsumptionQuery, r: bool| #[trigger]
        call_ensures(E::subsumed, (e, s, k, q), r) ==> r == (b.subsumed)(
            *e,
            s@,
            k@,
            query_content(*q),
        )
    &&& forall|e: &E, v: &VerifierEnv, step: usize, s: &State, r: bool| #[trigger]
        call_ensures(E::is_back_edge, (e, v, step, s), r) ==> r == (b.back_edge)(
            *e,
            env_content(*v),
            step,
            s@,
        )
    &&& forall|e: &E, v: &VerifierEnv, prog: &Program, pc: usize, entry: u32, r: Option<u64>|
        #[trigger]
        call_ensures(E::check_proof, (e, v, prog, pc, entry), r) ==> r == (b.proof_checked)(
            *e,
            env_content(*v),
            *prog,
            pc,
            entry,
        )
}

// ---------------------------------------------------------------------------
// Cleaning
// ---------------------------------------------------------------------------

pub(crate) proof fn lemma_same_cleanable(
    s1: Seq<State>,
    s2: Seq<State>,
    open1: Seq<bool>,
    open2: Seq<bool>,
)
    requires
        s1.len() == s2.len() == open1.len() == open2.len(),
        forall|i: int| 0 <= i < s1.len() ==> (#[trigger] s1[i])@ == s2[i]@,
        forall|i: int| 0 <= i < s1.len() && uncleaned(s1[i]) ==> #[trigger] open1[i] == open2[i],
    ensures
        cleanable(s1, open1) == cleanable(s2, open2),
    decreases s1.len(),
{
    if s1.len() > 0 {
        let n = s1.len() - 1;
        assert(s1[n]@ == s2[n]@);
        assert(uncleaned(s1[n]) ==> open1[n] == open2[n]);
        lemma_same_cleanable(s1.drop_last(), s2.drop_last(), open1.drop_last(), open2.drop_last());
    }
}

pub(crate) proof fn lemma_same_to_clean<E: Engine>(
    b: Behaviour<E>,
    engine: E,
    v1: VerifierEnv,
    v2: VerifierEnv,
    pc: usize,
    ids1: Vec<u32>,
    ids2: Vec<u32>,
)
    requires
        by_contents(b),
        call_ensures(states_to_clean::<E>, (&engine, &v1, pc), ids1),
        call_ensures(states_to_clean::<E>, (&engine, &v2, pc), ids2),
        env_content(v1) == env_content(v2),
    ensures
        ids1@ == ids2@,
{
    reveal(by_contents);
    reveal(env_content);
    let s1 = v1.cache@.bucket(pc);
    let s2 = v2.cache@.bucket(pc);
    lemma_cache_read(v1.cache@, v2.cache@);
    let o1 = choose|o: Seq<bool>| #[trigger]
        cleanable(s1, o) == ids1@ && o.len() == s1.len() && forall|i: int|
            0 <= i < o.len() && uncleaned(s1[i]) ==> call_ensures(
                E::incomplete_read_marks,
                (&engine, &v1, &s1[i]),
                #[trigger] o[i],
            );
    let o2 = choose|o: Seq<bool>| #[trigger]
        cleanable(s2, o) == ids2@ && o.len() == s2.len() && forall|i: int|
            0 <= i < o.len() && uncleaned(s2[i]) ==> call_ensures(
                E::incomplete_read_marks,
                (&engine, &v2, &s2[i]),
                #[trigger] o[i],
            );
    assert forall|i: int| 0 <= i < s1.len() && uncleaned(s1[i]) implies #[trigger] o1[i]
        == o2[i] by {
        assert(s1[i]@ == s2[i]@);
    }
    lemma_same_cleanable(s1, s2, o1, o2);
}

pub(crate) proof fn lemma_same_cleanings<E: Engine>(
    b: Behaviour<E>,
    ids: Seq<u32>,
    engines1: Seq<E>,
    caches1: Seq<StateCache>,
    calls1: Seq<Cleaning<E>>,
    engines2: Seq<E>,
    caches2: Seq<StateCache>,
    calls2: Seq<Cleaning<E>>,
    n: nat,
)
    requires
        by_contents(b),
        forall|e: &mut E, c: &mut StateCache, id: u32| #[trigger]
            call_ensures(E::clean, (e, c, id), ()) ==> {
                let after = (b.clean)(*e, cache_content((*c)@), id);
                *final(e) == after.0 && cache_content((*final(c))@) == after.1
            },
        cleanings_made(ids, engines1, caches1, calls1),
        cleanings_made(ids, engines2, caches2, calls2),
        forall|i: int|
            0 <= i < calls1.len() ==> *final((#[trigger] calls1[i]).engine) == engines1[i + 1]
                && *final(calls1[i].cache) == caches1[i + 1],
        forall|i: int|
            0 <= i < calls2.len() ==> *final((#[trigger] calls2[i]).engine) == engines2[i + 1]
                && *final(calls2[i].cache) == caches2[i + 1],
        engines1[0] == engines2[0],
        cache_content(caches1[0]@) == cache_content(caches2[0]@),
        n <= ids.len(),
    ensures
        engines1[n as int] == engines2[n as int],
        cache_content(caches1[n as int]@) == cache_content(caches2[n as int]@),
    decreases n,
{
    reveal(by_contents);
    if n > 0 {
        lemma_same_cleanings(
            b,
            ids,
            engines1,
            caches1,
            calls1,
            engines2,
            caches2,
            calls2,
            (n - 1) as nat,
        );
        let a = calls1[n - 1];
        let z = calls2[n - 1];
        assert(call_ensures(E::clean, (a.engine, a.cache, ids[n - 1]), ()));
        assert(call_ensures(E::clean, (z.engine, z.cache, ids[n - 1]), ()));
    }
}

pub(crate) proof fn lemma_same_cleaned<E: Engine>(
    b: Behaviour<E>,
    e1: &mut E,
    v1: &mut VerifierEnv,
    e2: &mut E,
    v2: &mut VerifierEnv,
    pc: usize,
)
    requires
        by_contents(b),
        forall|e: &mut E, c: &mut StateCache, id: u32| #[trigger]
            call_ensures(E::clean, (e, c, id), ()) ==> {
                let after = (b.clean)(*e, cache_content((*c)@), id);
                *final(e) == after.0 && cache_content((*final(c))@) == after.1
            },
        call_ensures(clean_candidates::<E>, (e1, v1, pc), ()),
        call_ensures(clean_candidates::<E>, (e2, v2, pc), ()),
        *e1 == *e2,
        env_content(*v1) == env_content(*v2),
    ensures
        *final(e1) == *final(e2),
        env_content(*final(v1)) == env_content(*final(v2)),
{
    reveal(by_contents);
    reveal(env_content);
    let (ids1, engines1, caches1, calls1) = choose|
        ids: Vec<u32>,
        engines: Seq<E>,
        caches: Seq<StateCache>,
        calls: Seq<Cleaning<E>>,
    |
        {
            &&& #[trigger] call_ensures(states_to_clean::<E>, (&*e1, &*v1, pc), ids)
            &&& #[trigger] cleanings_made(ids@, engines, caches, calls)
            &&& forall|i: int|
                0 <= i < calls.len() ==> *final((#[trigger] calls[i]).engine) == engines[i + 1]
                    && *final(calls[i].cache) == caches[i + 1]
            &&& engines[0] == *e1
            &&& caches[0] == (*v1).cache
            &&& engines.last() == *final(e1)
            &&& caches.last() == final(v1).cache
        };
    let (ids2, engines2, caches2, calls2) = choose|
        ids: Vec<u32>,
        engines: Seq<E>,
        caches: Seq<StateCache>,
        calls: Seq<Cleaning<E>>,
    |
        {
            &&& #[trigger] call_ensures(states_to_clean::<E>, (&*e2, &*v2, pc), ids)
            &&& #[trigger] cleanings_made(ids@, engines, caches, calls)
            &&& forall|i: int|
                0 <= i < calls.len() ==> *final((#[trigger] calls[i]).engine) == engines[i + 1]
                    && *final(calls[i].cache) == caches[i + 1]
            &&& engines[0] == *e2
            &&& caches[0] == (*v2).cache
            &&& engines.last() == *final(e2)
            &&& caches.last() == final(v2).cache
        };
    lemma_same_to_clean(b, *e1, *v1, *v2, pc, ids1, ids2);
    lemma_same_cleanings(
        b,
        ids1@,
        engines1,
        caches1,
        calls1,
        engines2,
        caches2,
        calls2,
        ids1@.len(),
    );
}

// ---------------------------------------------------------------------------
// Early decisions
// ---------------------------------------------------------------------------

pub(crate) proof fn lemma_same_own_past(
    c1: CacheData,
    c2: CacheData,
    s1: State,
    s2: State,
    k1: State,
    k2: State,
)
    requires
        cache_content(c1) == cache_content(c2),
        s1@ == s2@,
        k1@ == k2@,
    ensures
        may_be_own_past(c1, s1, k1) == may_be_own_past(c2, s2, k2),
{
    assert(s1@.parent_cache_id == s2@.parent_cache_id);
    assert(k1@.cache_id == k2@.cache_id && k1@.dfs_paths == k2@.dfs_paths);
    assert(k1@.may_goto_depth == k2@.may_goto_depth && s1@.may_goto_depth == s2@.may_goto_depth);
    match k1.cache_id {
        Some(id) => {
            assert forall|k: nat| #[trigger] nth_ancestor(c1, s1.parent_cache_id, k)
                == nth_ancestor(c2, s2.parent_cache_id, k) by {
                lemma_same_ancestor(c1, c2, s1.parent_cache_id, k);
            }
            if in_lineage(c1, s1.parent_cache_id, id) {
                let k = choose|k: nat|
                    k <= LINEAGE_STEPS && #[trigger] nth_ancestor(c1, s1.parent_cache_id, k)
                        == Some(id);
                assert(nth_ancestor(c2, s2.parent_cache_id, k) == Some(id));
            }
            if in_lineage(c2, s2.parent_cache_id, id) {
                let k = choose|k: nat|
                    k <= LINEAGE_STEPS && #[trigger] nth_ancestor(c2, s2.parent_cache_id, k)
                        == Some(id);
                assert(nth_ancestor(c1, s1.parent_cache_id, k) == Some(id));
            }
        },
        None => {},
    }
}

/// Whether an arrival repeats its own past is decided.
pub(crate) proof fn lemma_same_repeat<E: Engine>(
    b: Behaviour<E>,
    engine: E,
    v1: VerifierEnv,
    v2: VerifierEnv,
    s1: State,
    s2: State,
)
    requires
        by_contents(b),
        env_content(v1) == env_content(v2),
        s1@ == s2@,
        repeat_reply(engine, v1, s1, true),
    ensures
        !repeat_reply(engine, v2, s2, false),
{
    reveal(by_contents);
    reveal(env_content);
    let pc = s1.pc;
    assert(s1@.pc == s2@.pc);
    lemma_cache_read(v1.cache@, v2.cache@);
    let states1 = v1.cache@.bucket(pc);
    let states2 = v2.cache@.bucket(pc);
    let i = choose|i: int|
        0 <= i < states1.len() && may_be_own_past(v1.cache@, s1, #[trigger] states1[i])
            && may_repeat(engine, s1, states1[i]);
    assert(states1[i]@ == states2[i]@);
    lemma_same_own_past(v1.cache@, v2.cache@, s1, s2, states1[i], states2[i]);
    if repeat_reply(engine, v2, s2, false) {
        assert(may_be_own_past(v2.cache@, s2, states2[i]));
        assert(may_progress(engine, s2, states2[i]));
    }
}

pub(crate) proof fn lemma_same_masks(
    v1: VerifierEnv,
    v2: VerifierEnv,
    s1: State,
    s2: State,
    q1: SubsumptionQuery,
    q2: SubsumptionQuery,
)
    requires
        env_content(v1) == env_content(v2),
        s1@ == s2@,
        masks_of(v1, s1, s1.pc, q1.live_regs, q1.frame_live_regs@),
        masks_of(v2, s2, s2.pc, q2.live_regs, q2.frame_live_regs@),
        q1.force_exact == q2.force_exact,
    ensures
        query_content(q1) == query_content(q2),
{
    reveal(env_content);
    assert(s1@.pc == s2@.pc);
    lemma_same_callsites(s1, s2);
    assert(q1.frame_live_regs@ =~= q2.frame_live_regs@) by {
        assert forall|i: int| 0 <= i < q1.frame_live_regs@.len() implies q1.frame_live_regs@[i]
            == q2.frame_live_regs@[i] by {
            assert(s1.frames@[i].return_pc == s2.frames@[i].return_pc);
        }
    }
}

/// Whether a bounded jump is covered is decided.
pub(crate) proof fn lemma_same_relaxed<E: Engine>(
    b: Behaviour<E>,
    engine: E,
    v1: VerifierEnv,
    v2: VerifierEnv,
    s1: State,
    s2: State,
)
    requires
        by_contents(b),
        env_content(v1) == env_content(v2),
        s1@ == s2@,
        relaxed_reply(engine, v1, s1, true),
    ensures
        !relaxed_reply(engine, v2, s2, false),
{
    reveal(by_contents);
    reveal(env_content);
    assert(s1@.pc == s2@.pc && s1@.may_goto_depth == s2@.may_goto_depth);
    lemma_cache_read(v1.cache@, v2.cache@);
    let states1 = v1.cache@.bucket(s1.pc);
    let states2 = v2.cache@.bucket(s2.pc);
    let (r1, q1) = choose|relaxed: State, q: SubsumptionQuery| #[trigger]
        relaxed_query(v1, s1, relaxed, q) && exists|i: int|
            0 <= i < states1.len() && (#[trigger] states1[i]).may_goto_depth != s1.may_goto_depth
                && call_ensures(E::subsumed, (&engine, &relaxed, &states1[i], &q), true);
    let i = choose|i: int|
        0 <= i < states1.len() && (#[trigger] states1[i]).may_goto_depth != s1.may_goto_depth
            && call_ensures(E::subsumed, (&engine, &r1, &states1[i], &q1), true);
    assert(states1[i]@ == states2[i]@);
    assert(states2[i].may_goto_depth == states2[i]@.may_goto_depth);
    if relaxed_reply(engine, v2, s2, false) {
        let (r2, q2) = choose|relaxed: State, q: SubsumptionQuery| #[trigger]
            relaxed_query(v2, s2, relaxed, q) && forall|i: int|
                0 <= i < states2.len() && (#[trigger] states2[i]).may_goto_depth
                    != s2.may_goto_depth ==> call_ensures(
                    E::subsumed,
                    (&engine, &relaxed, &states2[i], &q),
                    false,
                );
        lemma_same_masks(v1, v2, s1, s2, q1, q2);
        assert(r1@ == r2@);
        assert(call_ensures(E::subsumed, (&engine, &r2, &states2[i], &q2), false));
    }
}

pub(crate) proof fn lemma_same_early<E: Engine>(
    b: Behaviour<E>,
    engine: E,
    v1: VerifierEnv,
    v2: VerifierEnv,
    s1: State,
    s2: State,
    prog: Program,
    facts: LoopFacts,
    early1: Early,
    early2: Early,
)
    requires
        by_contents(b),
        env_content(v1) == env_content(v2),
        s1@ == s2@,
        decided_early(engine, v1, s1, prog, facts, early1),
        decided_early(engine, v2, s2, prog, facts, early2),
    ensures
        early1 == early2,
{
    reveal(by_contents);
    reveal(env_content);
    assert(s1@.pc == s2@.pc);
    lemma_same_callsites(s1, s2);
    assert(iterates(s1) == iterates(s2)) by {
        if iterates(s1) {
            let i = choose|i: int|
                0 <= i < s1.frames@.len() && (#[trigger] s1.frames@[i]).active_iterators;
            assert(s2.frames@[i].active_iterators);
        }
        if iterates(s2) {
            let i = choose|i: int|
                0 <= i < s2.frames@.len() && (#[trigger] s2.frames@[i]).active_iterators;
            assert(s1.frames@[i].active_iterators);
        }
    }
    assert(trap_set(s1, prog, facts) == trap_set(s2, prog, facts));
    if early1 == Early::EndlessLoop && early2 != Early::EndlessLoop {
        lemma_same_repeat(b, engine, v1, v2, s1, s2);
    }
    if early2 == Early::EndlessLoop && early1 != Early::EndlessLoop {
        lemma_same_repeat(b, engine, v2, v1, s2, s1);
    }
    if early1 == Early::Covered && early2 == Early::Undecided {
        lemma_same_relaxed(b, engine, v1, v2, s1, s2);
    }
    if early2 == Early::Covered && early1 == Early::Undecided {
        lemma_same_relaxed(b, engine, v2, v1, s2, s1);
    }
    assert((*v1.ctx).test_state_freq == (*v2.ctx).test_state_freq);
}

}
