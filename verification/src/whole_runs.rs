//! Laws of whole runs: what becomes of the cached states from the first round to
//! the last.
//!
//! An engine may do anything with the cache that it is handed. What is said here
//! of a run holds for the engines that keep to the same rule: with the sparse cache
//! they cache nothing outside the prune points, and without it they change what a
//! state holds, but neither add one nor take one out.

use vstd::prelude::*;

use crate::analysis::{
    analyze_from, analyze_program_full, choose_certificate, entry_view, explore_program,
    is_kernel_faithful, law_entry_state, map_refused, may_refuse, nothing_explored, result_of,
    run_passes, AnalysisResult,
};
use crate::ast::{Instr, Program};
use crate::cache::{without, CacheData, StateCache};
use crate::engine::{Engine, LoopFacts};
use crate::env::{
    starts_blank, Breadcrumb, Certificate, ExecContext, VerifierConfig, VerifierEnv,
};
use crate::machine::{Dbm, NumericDomain, State, VerificationError};
use crate::pruning::{
    adds_checkpoint, after_misses, arrival_decided, clean_candidates, cleanings_made, close_loop,
    decide_by_candidates, decided_early, deferred_in_loop, evicted_places, evicts, follow_hit,
    handle_loop_pruning, handle_standard_pruning, hit_counted, law_hits_are_finished,
    lemma_filter_contains, masks_of, scan_by_place, settle_arrival, should_prune, states_to_clean,
    suppressed_in_loop, Cleaning, Early, ScanOutcome,
};
use crate::worklist::{
    adapt_types, arrival_counted, arrived, becomes_checkpoint, checkpoint_arrival, decide_arrival,
    execute_step, explore, fork_counted, jump_counted, receive, round_made, rounds_made,
    run_worklist, settle_step, step_recorded, take_checkpoint, work_off, Arrival, Moment, Origin,
    Round,
};

verus! {

// ---------------------------------------------------------------------------
// States that stand
// ---------------------------------------------------------------------------

/// Whether the same places hold as many states as before.
pub open spec fn states_stand(before: CacheData, after: CacheData) -> bool {
    &&& after.next_id == before.next_id
    &&& forall|q: usize| #[trigger] after.bucket(q).len() == before.bucket(q).len()
}

/// Whether at most states at one place have left.
pub open spec fn states_stand_but_at(before: CacheData, after: CacheData, pc: usize) -> bool {
    &&& after.next_id == before.next_id
    &&& after.bucket(pc).len() <= before.bucket(pc).len()
    &&& forall|q: usize| q != pc ==> #[trigger] after.bucket(q).len() == before.bucket(q).len()
}

/// Whether no place outside the given ones holds states that held none before.
pub open spec fn no_new_places(before: CacheData, after: CacheData, points: Set<usize>) -> bool {
    forall|q: usize| #[trigger]
        after.bucket(q).len() > 0 ==> before.bucket(q).len() > 0 || points.contains(q)
}

/// The rule for an engine: with the sparse cache it caches nothing outside the given
/// places, and without it the cached states stand.
pub open spec fn lets_stand(
    before: CacheData,
    after: CacheData,
    sparse: bool,
    points: Set<usize>,
) -> bool {
    if sparse {
        no_new_places(before, after, points)
    } else {
        states_stand(before, after)
    }
}

/// The same, where states at one place may have left.
pub open spec fn stands_but_at(
    before: CacheData,
    after: CacheData,
    pc: usize,
    sparse: bool,
    points: Set<usize>,
) -> bool {
    if sparse {
        no_new_places(before, after, points)
    } else {
        states_stand_but_at(before, after, pc)
    }
}

proof fn lemma_stand_on(
    a: CacheData,
    b: CacheData,
    c: CacheData,
    sparse: bool,
    points: Set<usize>,
)
    requires
        lets_stand(a, b, sparse, points),
        lets_stand(b, c, sparse, points),
    ensures
        lets_stand(a, c, sparse, points),
{
    if sparse {
        assert forall|q: usize| #[trigger] c.bucket(q).len() > 0 implies a.bucket(q).len() > 0
            || points.contains(q) by {
            if !points.contains(q) {
                assert(b.bucket(q).len() > 0);
            }
        }
    } else {
        assert forall|q: usize| #[trigger] c.bucket(q).len() == a.bucket(q).len() by {
            assert(b.bucket(q).len() == a.bucket(q).len());
        }
    }
}

proof fn lemma_stand_then_leave(
    a: CacheData,
    b: CacheData,
    c: CacheData,
    pc: usize,
    sparse: bool,
    points: Set<usize>,
)
    requires
        lets_stand(a, b, sparse, points),
        stands_but_at(b, c, pc, sparse, points),
    ensures
        stands_but_at(a, c, pc, sparse, points),
{
    if sparse {
        lemma_stand_on(a, b, c, sparse, points);
    } else {
        assert(b.bucket(pc).len() == a.bucket(pc).len());
        assert forall|q: usize| q != pc implies #[trigger] c.bucket(q).len() == a.bucket(
            q,
        ).len() by {
            assert(b.bucket(q).len() == a.bucket(q).len());
        }
    }
}

proof fn lemma_without_len<T>(s: Seq<T>, places: Seq<usize>)
    ensures
        without(s, places).len() <= s.len(),
    decreases s.len(),
{
    if s.len() > 0 {
        lemma_without_len(s.drop_last(), places);
    }
}

/// What is not taken out is left.
proof fn lemma_without_keeps<T>(s: Seq<T>, places: Seq<usize>, i: usize)
    requires
        i < s.len(),
        !places.contains(i),
    ensures
        without(s, places).len() > 0,
    decreases s.len(),
{
    if i < s.len() - 1 {
        lemma_without_keeps(s.drop_last(), places, i);
    } else {
        assert(!(exists|k: int| 0 <= k < places.len() && #[trigger] places[k] == s.len() - 1)) by {
            if exists|k: int| 0 <= k < places.len() && #[trigger] places[k] == s.len() - 1 {
                let k = choose|k: int| 0 <= k < places.len() && #[trigger] places[k] == s.len() - 1;
                assert(places[k] == i);
            }
        }
    }
}

// ---------------------------------------------------------------------------
// Arrivals
// ---------------------------------------------------------------------------

proof fn lemma_cleanings<E: Engine>(
    ids: Seq<u32>,
    engines: Seq<E>,
    caches: Seq<StateCache>,
    calls: Seq<Cleaning<E>>,
    n: nat,
    sparse: bool,
    points: Set<usize>,
)
    requires
        forall|e: &mut E, c: &mut StateCache, id: u32| #[trigger]
            call_ensures(E::clean, (e, c, id), ()) ==> lets_stand(
                (*c)@,
                (*final(c))@,
                sparse,
                points,
            ),
        cleanings_made(ids, engines, caches, calls),
        forall|i: int|
            0 <= i < calls.len() ==> *final((#[trigger] calls[i]).engine) == engines[i + 1]
                && *final(calls[i].cache) == caches[i + 1],
        n <= calls.len(),
    ensures
        lets_stand(caches[0]@, caches[n as int]@, sparse, points),
    decreases n,
{
    if n > 0 {
        lemma_cleanings(ids, engines, caches, calls, (n - 1) as nat, sparse, points);
        let call = calls[n - 1];
        assert(call_ensures(E::clean, (call.engine, call.cache, ids[n - 1]), ()));
        lemma_stand_on(
            caches[0]@,
            caches[n - 1]@,
            caches[n as int]@,
            sparse,
            points,
        );
    }
}

proof fn lemma_cleaned<E: Engine>(
    engine: &mut E,
    env: &mut VerifierEnv,
    pc: usize,
    sparse: bool,
    points: Set<usize>,
)
    requires
        forall|e: &mut E, c: &mut StateCache, id: u32| #[trigger]
            call_ensures(E::clean, (e, c, id), ()) ==> lets_stand(
                (*c)@,
                (*final(c))@,
                sparse,
                points,
            ),
        call_ensures(clean_candidates::<E>, (engine, env, pc), ()),
    ensures
        lets_stand(old(env).cache@, final(env).cache@, sparse, points),
{
    let (ids, engines, caches, calls) = choose|
        ids: Vec<u32>,
        engines: Seq<E>,
        caches: Seq<StateCache>,
        calls: Seq<Cleaning<E>>,
    |
        {
            &&& #[trigger] call_ensures(states_to_clean::<E>, (&*engine, &*env, pc), ids)
            &&& #[trigger] cleanings_made(ids@, engines, caches, calls)
            &&& forall|i: int|
                0 <= i < calls.len() ==> *final((#[trigger] calls[i]).engine) == engines[i + 1]
                    && *final(calls[i].cache) == caches[i + 1]
            &&& caches[0] == (*env).cache
            &&& caches.last() == final(env).cache
        };
    lemma_cleanings(ids@, engines, caches, calls, calls.len(), sparse, points);
}

proof fn lemma_hit_followed<E: Engine>(
    engine: &mut E,
    env: &mut VerifierEnv,
    state: State,
    idx: usize,
    closes_loops: bool,
    sparse: bool,
    points: Set<usize>,
)
    requires
        forall|
            e: &mut E,
            c: &mut StateCache,
            history: &Vec<Breadcrumb>,
            state: &State,
            cached: &State,
        | #[trigger]
            call_ensures(E::propagate_precision, (e, c, history, state, cached), ())
                ==> lets_stand((*c)@, (*final(c))@, sparse, points),
        forall|e: &mut E, c: &mut StateCache, state: &State, id: u32, pc: usize| #[trigger]
            call_ensures(E::add_backedge, (e, c, state, id, pc), ()) ==> lets_stand(
                (*c)@,
                (*final(c))@,
                sparse,
                points,
            ),
        call_ensures(follow_hit::<E>, (engine, env, &state, idx, closes_loops), ()),
    ensures
        lets_stand(old(env).cache@, final(env).cache@, sparse, points),
{
    let (scored, cached, e1, c1) = choose|
        scored: VerifierEnv,
        cached: State,
        e1: &mut E,
        c1: &mut StateCache,
    |
        {
            &&& #[trigger] hit_counted(*env, scored, state.pc, idx)
            &&& #[trigger] call_ensures(
                E::propagate_precision,
                (e1, c1, &(*env).history, &state, &cached),
                (),
            )
            &&& *c1 == scored.cache
            &&& if closes_loops {
                exists|e2: &mut E, v2: &mut VerifierEnv|
                    {
                        &&& #[trigger] call_ensures(
                            close_loop::<E>,
                            (e2, v2, &state, &cached),
                            (),
                        )
                        &&& *v2 == (VerifierEnv { cache: *final(c1), ..scored })
                        &&& *final(env) == *final(v2)
                    }
            } else {
                *final(env) == (VerifierEnv { cache: *final(c1), ..scored })
            }
        };
    let b0 = (*env).cache@;
    let b1 = scored.cache@;
    let b2 = (*final(c1))@;
    assert(states_stand(b0, b1)) by {
        assert forall|q: usize| #[trigger] b1.bucket(q) == b0.bucket(q) by {}
    }
    assert(lets_stand(b0, b1, sparse, points));
    lemma_stand_on(b0, b1, b2, sparse, points);
    if closes_loops {
        let (e2, v2) = choose|e2: &mut E, v2: &mut VerifierEnv|
            {
                &&& #[trigger] call_ensures(close_loop::<E>, (e2, v2, &state, &cached), ())
                &&& *v2 == (VerifierEnv { cache: *final(c1), ..scored })
                &&& *final(env) == *final(v2)
            };
        let b3 = final(v2).cache@;
        assert(lets_stand(b2, b3, sparse, points));
        lemma_stand_on(b0, b2, b3, sparse, points);
    }
}

/// Misses take states out of one bucket at most, and never the last one that was
/// not missed.
proof fn lemma_missed(
    before: CacheData,
    after: CacheData,
    pc: usize,
    force: bool,
    misses: Seq<usize>,
)
    requires
        after_misses(before, after, pc, force, misses),
    ensures
        states_stand_but_at(before, after, pc),
        forall|i: usize|
            i < before.bucket(pc).len() && !#[trigger] misses.contains(i) ==> after.bucket(pc).len()
                > 0,
{
    let gone = evicted_places(before, pc, force, misses);
    lemma_filter_contains(misses, |i: usize| evicts(before, pc, force, i));
    lemma_without_len(before.bucket(pc), gone);
    assert forall|i: usize|
        i < before.bucket(pc).len() && !#[trigger] misses.contains(i) implies after.bucket(pc).len()
        > 0 by {
        assert(!gone.contains(i));
        lemma_without_keeps(before.bucket(pc), gone, i);
    }
}

/// States that left are no new ones.
proof fn lemma_left(a: CacheData, b: CacheData, pc: usize, sparse: bool, points: Set<usize>)
    requires
        states_stand_but_at(a, b, pc),
    ensures
        stands_but_at(a, b, pc, sparse, points),
{
    assert forall|q: usize| #[trigger] b.bucket(q).len() > 0 implies a.bucket(q).len() > 0 by {
        if q != pc {
            assert(b.bucket(q).len() == a.bucket(q).len());
        }
    }
}

proof fn lemma_settled<E: Engine>(
    engine: &mut E,
    env: &mut VerifierEnv,
    state: State,
    live_regs: [bool; 11],
    masks: Vec<Option<[bool; 11]>>,
    exact: bool,
    closes_loops: bool,
    pruned: bool,
    sparse: bool,
    points: Set<usize>,
)
    requires
        forall|
            e: &mut E,
            c: &mut StateCache,
            history: &Vec<Breadcrumb>,
            state: &State,
            cached: &State,
        | #[trigger]
            call_ensures(E::propagate_precision, (e, c, history, state, cached), ())
                ==> lets_stand((*c)@, (*final(c))@, sparse, points),
        forall|e: &mut E, c: &mut StateCache, state: &State, id: u32, pc: usize| #[trigger]
            call_ensures(E::add_backedge, (e, c, state, id, pc), ()) ==> lets_stand(
                (*c)@,
                (*final(c))@,
                sparse,
                points,
            ),
        call_ensures(
            settle_arrival::<E>,
            (engine, env, &state, live_regs, &masks, exact, closes_loops),
            pruned,
        ),
    ensures
        stands_but_at(old(env).cache@, final(env).cache@, state.pc, sparse, points),
        !sparse && pruned ==> final(env).cache@.bucket(state.pc).len() > 0,
{
    let pc = state.pc;
    let (subsumes, out) = choose|subsumes: Seq<bool>, out: ScanOutcome|
        {
            &&& #[trigger] arrival_decided(
                *engine,
                *env,
                *final(env),
                state,
                exact,
                pruned,
                subsumes,
                out,
            )
            &&& match out.hit {
                None => *final(engine) == *engine,
                Some(idx) => exists|e: &mut E, v: &mut VerifierEnv|
                    {
                        &&& #[trigger] call_ensures(
                            follow_hit::<E>,
                            (e, v, &state, idx, closes_loops),
                            (),
                        )
                        &&& *v == (VerifierEnv {
                            saw_active_state_at_check: final(env).saw_active_state_at_check,
                            ..*env
                        })
                        &&& after_misses(
                            final(v).cache@,
                            final(env).cache@,
                            pc,
                            (*env).spec_force_checkpoint(pc),
                            out.misses@,
                        )
                    },
            }
        };
    let force = (*env).spec_force_checkpoint(pc);
    let b0 = (*env).cache@;
    let b2 = final(env).cache@;
    match out.hit {
        None => {
            lemma_missed(b0, b2, pc, force, out.misses@);
            lemma_left(b0, b2, pc, sparse, points);
        },
        Some(idx) => {
            let (e, v) = choose|e: &mut E, v: &mut VerifierEnv|
                {
                    &&& #[trigger] call_ensures(
                        follow_hit::<E>,
                        (e, v, &state, idx, closes_loops),
                        (),
                    )
                    &&& *v == (VerifierEnv {
                        saw_active_state_at_check: final(env).saw_active_state_at_check,
                        ..*env
                    })
                    &&& after_misses(
                        final(v).cache@,
                        final(env).cache@,
                        pc,
                        (*env).spec_force_checkpoint(pc),
                        out.misses@,
                    )
                };
            lemma_hit_followed(e, v, state, idx, closes_loops, sparse, points);
            let b1 = final(v).cache@;
            lemma_missed(b1, b2, pc, force, out.misses@);
            lemma_left(b1, b2, pc, sparse, points);
            lemma_stand_then_leave(b0, b1, b2, pc, sparse, points);
            law_hits_are_finished(
                b0.bucket(pc),
                state,
                adds_checkpoint(*env, state, pc),
                suppressed_in_loop(*env, state, pc),
                subsumes,
                out,
            );
            assert(!out.misses@.contains(idx));
            if !sparse {
                assert(b1.bucket(pc).len() == b0.bucket(pc).len());
            }
        },
    }
}

proof fn lemma_scanned<E: Engine>(
    engine: &mut E,
    env: &mut VerifierEnv,
    state: State,
    facts: LoopFacts,
    live_regs: [bool; 11],
    masks: Vec<Option<[bool; 11]>>,
    pruned: bool,
    sparse: bool,
    points: Set<usize>,
)
    requires
        forall|
            e: &mut E,
            c: &mut StateCache,
            history: &Vec<Breadcrumb>,
            state: &State,
            cached: &State,
        | #[trigger]
            call_ensures(E::propagate_precision, (e, c, history, state, cached), ())
                ==> lets_stand((*c)@, (*final(c))@, sparse, points),
        forall|e: &mut E, c: &mut StateCache, state: &State, id: u32, pc: usize| #[trigger]
            call_ensures(E::add_backedge, (e, c, state, id, pc), ()) ==> lets_stand(
                (*c)@,
                (*final(c))@,
                sparse,
                points,
            ),
        call_ensures(
            scan_by_place::<E>,
            (engine, env, &state, facts, live_regs, &masks),
            pruned,
        ),
    ensures
        stands_but_at(old(env).cache@, final(env).cache@, state.pc, sparse, points),
        !sparse && pruned ==> final(env).cache@.bucket(state.pc).len() > 0,
{
    if facts.at_loop_point {
        let (e, v) = choose|e: &mut E, v: &mut VerifierEnv|
            {
                &&& #[trigger] call_ensures(
                    handle_loop_pruning::<E>,
                    (e, v, &state, facts, live_regs, &masks),
                    pruned,
                )
                &&& *v == *env
                &&& *final(env) == *final(v)
            };
        if !deferred_in_loop(*env, facts, state.pc) {
            let (e1, v1) = choose|e1: &mut E, v1: &mut VerifierEnv|
                {
                    &&& #[trigger] call_ensures(
                        settle_arrival::<E>,
                        (e1, v1, &state, live_regs, &masks, false, true),
                        pruned,
                    )
                    &&& *v1 == *v
                    &&& *final(v) == *final(v1)
                };
            lemma_settled(
                e1,
                v1,
                state,
                live_regs,
                masks,
                false,
                true,
                pruned,
                sparse,
                points,
            );
        }
    } else {
        let (e, v) = choose|e: &mut E, v: &mut VerifierEnv|
            {
                &&& #[trigger] call_ensures(
                    handle_standard_pruning::<E>,
                    (e, v, &state, live_regs, &masks),
                    pruned,
                )
                &&& *v == *env
                &&& *final(env) == *final(v)
            };
        let (e1, v1, exact) = choose|e1: &mut E, v1: &mut VerifierEnv, exact: bool|
            {
                &&& #[trigger] call_ensures(
                    settle_arrival::<E>,
                    (e1, v1, &state, live_regs, &masks, exact, false),
                    pruned,
                )
                &&& *v1 == *v
                &&& *final(v) == *final(v1)
            };
        lemma_settled(
            e1,
            v1,
            state,
            live_regs,
            masks,
            exact,
            false,
            pruned,
            sparse,
            points,
        );
    }
}

proof fn lemma_decided<E: Engine>(
    engine: &mut E,
    env: &mut VerifierEnv,
    state: State,
    prog: Program,
    pruned: bool,
    sparse: bool,
    points: Set<usize>,
)
    requires
        forall|
            e: &mut E,
            c: &mut StateCache,
            history: &Vec<Breadcrumb>,
            state: &State,
            cached: &State,
        | #[trigger]
            call_ensures(E::propagate_precision, (e, c, history, state, cached), ())
                ==> lets_stand((*c)@, (*final(c))@, sparse, points),
        forall|e: &mut E, c: &mut StateCache, state: &State, id: u32, pc: usize| #[trigger]
            call_ensures(E::add_backedge, (e, c, state, id, pc), ()) ==> lets_stand(
                (*c)@,
                (*final(c))@,
                sparse,
                points,
            ),
        call_ensures(decide_by_candidates::<E>, (engine, env, &state, &prog), pruned),
    ensures
        stands_but_at(old(env).cache@, final(env).cache@, state.pc, sparse, points),
        !sparse && pruned ==> final(env).cache@.bucket(state.pc).len() > 0,
{
    let (facts, early) = choose|facts: LoopFacts, early: Early|
        {
            &&& #[trigger] call_ensures(E::loop_facts, (&*engine, &*env, &state, &prog), facts)
            &&& #[trigger] decided_early(*engine, *env, state, prog, facts, early)
            &&& match early {
                Early::EndlessLoop => {
                    &&& pruned
                    &&& *final(env) == (VerifierEnv {
                        error: Some(VerificationError::InfiniteLoopDetected { pc: state.pc }),
                        ..*env
                    })
                },
                Early::Explore => !pruned && *final(env) == *env,
                Early::Covered => pruned && *final(env) == *env,
                Early::Undecided => exists|
                    e: &mut E,
                    v: &mut VerifierEnv,
                    live_regs: [bool; 11],
                    masks: Vec<Option<[bool; 11]>>,
                |
                    {
                        &&& #[trigger] masks_of(*env, state, state.pc, live_regs, masks@)
                        &&& #[trigger] call_ensures(
                            scan_by_place::<E>,
                            (e, v, &state, facts, live_regs, &masks),
                            pruned,
                        )
                        &&& *v == *env
                        &&& *final(env) == *final(v)
                    },
            }
        };
    if early == Early::Undecided {
        let (e, v, live_regs, masks) = choose|
            e: &mut E,
            v: &mut VerifierEnv,
            live_regs: [bool; 11],
            masks: Vec<Option<[bool; 11]>>,
        |
            {
                &&& #[trigger] masks_of(*env, state, state.pc, live_regs, masks@)
                &&& #[trigger] call_ensures(
                    scan_by_place::<E>,
                    (e, v, &state, facts, live_regs, &masks),
                    pruned,
                )
                &&& *v == *env
                &&& *final(env) == *final(v)
            };
        lemma_scanned(e, v, state, facts, live_regs, masks, pruned, sparse, points);
    }
}

/// An arrival takes states out of its own bucket at most, and one that is covered
/// leaves a state there.
proof fn lemma_pruned_or_not<E: Engine>(
    engine: &mut E,
    env: &mut VerifierEnv,
    state: State,
    prog: Program,
    pruned: bool,
    sparse: bool,
    points: Set<usize>,
)
    requires
        forall|e: &mut E, c: &mut StateCache, id: u32| #[trigger]
            call_ensures(E::clean, (e, c, id), ()) ==> lets_stand(
                (*c)@,
                (*final(c))@,
                sparse,
                points,
            ),
        forall|
            e: &mut E,
            c: &mut StateCache,
            history: &Vec<Breadcrumb>,
            state: &State,
            cached: &State,
        | #[trigger]
            call_ensures(E::propagate_precision, (e, c, history, state, cached), ())
                ==> lets_stand((*c)@, (*final(c))@, sparse, points),
        forall|e: &mut E, c: &mut StateCache, state: &State, id: u32, pc: usize| #[trigger]
            call_ensures(E::add_backedge, (e, c, state, id, pc), ()) ==> lets_stand(
                (*c)@,
                (*final(c))@,
                sparse,
                points,
            ),
        call_ensures(should_prune::<E>, (engine, env, &state, &prog), pruned),
    ensures
        stands_but_at(old(env).cache@, final(env).cache@, state.pc, sparse, points),
        !sparse && pruned ==> final(env).cache@.bucket(state.pc).len() > 0,
{
    if state.pc < (*env).insn_aux@.len() {
        let (fresh, at_prune_point) = choose|fresh: VerifierEnv, at_prune_point: bool|
            {
                &&& #[trigger] call_ensures(
                    E::is_prune_point,
                    (&*engine, &fresh, state.pc),
                    at_prune_point,
                )
                &&& fresh == (VerifierEnv { saw_active_state_at_check: false, ..*env })
                &&& if !at_prune_point {
                    !pruned && *final(env) == fresh
                } else {
                    exists|e1: &mut E, v1: &mut VerifierEnv, e2: &mut E, v2: &mut VerifierEnv|
                        {
                            &&& #[trigger] call_ensures(
                                clean_candidates::<E>,
                                (e1, v1, state.pc),
                                (),
                            )
                            &&& *v1 == fresh
                            &&& #[trigger] call_ensures(
                                decide_by_candidates::<E>,
                                (e2, v2, &state, &prog),
                                pruned,
                            )
                            &&& *v2 == *final(v1)
                            &&& *final(env) == *final(v2)
                        }
                }
            };
        if at_prune_point {
            let (e1, v1, e2, v2) = choose|
                e1: &mut E,
                v1: &mut VerifierEnv,
                e2: &mut E,
                v2: &mut VerifierEnv,
            |
                {
                    &&& #[trigger] call_ensures(clean_candidates::<E>, (e1, v1, state.pc), ())
                    &&& *v1 == fresh
                    &&& #[trigger] call_ensures(
                        decide_by_candidates::<E>,
                        (e2, v2, &state, &prog),
                        pruned,
                    )
                    &&& *v2 == *final(v1)
                    &&& *final(env) == *final(v2)
                };
            lemma_cleaned(e1, v1, state.pc, sparse, points);
            lemma_decided(e2, v2, state, prog, pruned, sparse, points);
            lemma_stand_then_leave(
                (*env).cache@,
                final(v1).cache@,
                final(env).cache@,
                state.pc,
                sparse,
                points,
            );
        }
    }
}

/// What a part of a run may do to the cached states. With the sparse cache new
/// ones come only to the given places. Without it no place that holds states loses
/// all of them, as long as there are numbers for new ones.
pub open spec fn states_kept(
    before: CacheData,
    after: CacheData,
    sparse: bool,
    points: Set<usize>,
) -> bool {
    &&& sparse ==> no_new_places(before, after, points)
    &&& !sparse ==> before.next_id <= after.next_id
    &&& !sparse && after.next_id < u32::MAX ==> forall|q: usize| #[trigger]
        before.bucket(q).len() > 0 ==> after.bucket(q).len() > 0
}

proof fn lemma_kept_on(
    a: CacheData,
    b: CacheData,
    c: CacheData,
    sparse: bool,
    points: Set<usize>,
)
    requires
        states_kept(a, b, sparse, points),
        states_kept(b, c, sparse, points),
    ensures
        states_kept(a, c, sparse, points),
{
    assert forall|q: usize| sparse && #[trigger] c.bucket(q).len() > 0 implies a.bucket(q).len() > 0
        || points.contains(q) by {
        if !points.contains(q) {
            assert(b.bucket(q).len() > 0);
        }
    }
    assert forall|q: usize|
        !sparse && c.next_id < u32::MAX && #[trigger] a.bucket(q).len() > 0 implies c.bucket(
        q,
    ).len() > 0 by {
        assert(b.bucket(q).len() > 0);
    }
}

proof fn lemma_kept_where_standing(
    before: CacheData,
    after: CacheData,
    sparse: bool,
    points: Set<usize>,
)
    requires
        lets_stand(before, after, sparse, points),
    ensures
        states_kept(before, after, sparse, points),
{
    assert forall|q: usize| !sparse && #[trigger] before.bucket(q).len() > 0 implies after.bucket(
        q,
    ).len() > 0 by {
        assert(after.bucket(q).len() == before.bucket(q).len());
    }
}

proof fn lemma_checkpointed<E: Engine>(
    engine: &mut E,
    env: &mut VerifierEnv,
    state: &mut State,
    config: VerifierConfig,
    points: Set<usize>,
)
    requires
        forall|e: &E, v: &VerifierEnv, pc: usize| #[trigger]
            call_ensures(E::is_prune_point, (e, v, pc), true) ==> points.contains(pc),
        call_ensures(checkpoint_arrival::<E>, (engine, env, state, &config), ()),
    ensures
        old(env).cache@.next_id <= final(env).cache@.next_id <= old(env).cache@.next_id + 1,
        forall|q: usize|
            q != old(state).pc ==> #[trigger] final(env).cache@.bucket(q) == old(
                env,
            ).cache@.bucket(q),
        config.kernel_engine || old(env).bcf_enabled ==> final(env).cache@.bucket(
            old(state).pc,
        ).len() > 0 ==> old(env).cache@.bucket(old(state).pc).len() > 0 || points.contains(
            old(state).pc,
        ),
        !(config.kernel_engine || old(env).bcf_enabled) && final(env).cache@.next_id < u32::MAX
            ==> final(env).cache@.bucket(old(state).pc).len() > 0,
{
    let sparse = config.kernel_engine || (*env).bcf_enabled;
    let at_prune_point = choose|at_prune_point: bool|
        {
            &&& #[trigger] call_ensures(
                E::is_prune_point,
                (&*engine, &*env, (*state).pc),
                at_prune_point,
            )
            &&& if becomes_checkpoint(*env, *state, sparse, at_prune_point) {
                exists|cached: State, v: &mut VerifierEnv, s: &mut State|
                    {
                        &&& #[trigger] call_ensures(
                            take_checkpoint,
                            (v, s, cached, config.max_states_per_pc),
                            (),
                        )
                        &&& *v == *env
                        &&& *s == *state
                        &&& *final(env) == *final(v)
                    }
            } else {
                *final(env) == *env
            }
        };
    if becomes_checkpoint(*env, *state, sparse, at_prune_point) {
        let (cached, v, s) = choose|cached: State, v: &mut VerifierEnv, s: &mut State|
            {
                &&& #[trigger] call_ensures(
                    take_checkpoint,
                    (v, s, cached, config.max_states_per_pc),
                    (),
                )
                &&& *v == *env
                &&& *s == *state
                &&& *final(env) == *final(v)
            };
        assert(final(v).cache == final(env).cache);
    }
}

/// A decided arrival keeps the cached states; without the sparse cache it leaves
/// one where it stands.
proof fn lemma_arrival_decided<E: Engine>(
    engine: &mut E,
    env: &mut VerifierEnv,
    prog: Program,
    config: VerifierConfig,
    state: &mut State,
    arrival: Arrival,
    sparse: bool,
    points: Set<usize>,
)
    requires
        forall|e: &mut E, c: &mut StateCache, id: u32| #[trigger]
            call_ensures(E::clean, (e, c, id), ()) ==> lets_stand(
                (*c)@,
                (*final(c))@,
                sparse,
                points,
            ),
        forall|
            e: &mut E,
            c: &mut StateCache,
            history: &Vec<Breadcrumb>,
            state: &State,
            cached: &State,
        | #[trigger]
            call_ensures(E::propagate_precision, (e, c, history, state, cached), ())
                ==> lets_stand((*c)@, (*final(c))@, sparse, points),
        forall|e: &mut E, c: &mut StateCache, state: &State, id: u32, pc: usize| #[trigger]
            call_ensures(E::add_backedge, (e, c, state, id, pc), ()) ==> lets_stand(
                (*c)@,
                (*final(c))@,
                sparse,
                points,
            ),
        forall|e: &mut E, c: &mut StateCache, sites: &Vec<usize>, parent: Option<u32>| #[trigger]
            call_ensures(E::end_path, (e, c, sites, parent), ()) ==> lets_stand(
                (*c)@,
                (*final(c))@,
                sparse,
                points,
            ),
        forall|e: &E, v: &VerifierEnv, pc: usize| #[trigger]
            call_ensures(E::is_prune_point, (e, v, pc), true) ==> points.contains(pc),
        sparse == (config.kernel_engine || (*env).bcf_enabled),
        call_ensures(decide_arrival::<E>, (engine, env, &prog, &config, state), arrival),
    ensures
        states_kept(
            old(env).cache@,
            final(env).cache@,
            sparse,
            points,
        ),
        !sparse && final(env).cache@.next_id < u32::MAX
            ==> final(env).cache@.bucket(old(state).pc).len() > 0,
        !sparse ==> final(env).cache@.next_id <= old(env).cache@.next_id + 1,
{
    let pc = (*state).pc;
    let arriving = *state;
    let (e1, v1, pruned) = choose|e1: &mut E, v1: &mut VerifierEnv, pruned: bool|
        {
            &&& #[trigger] call_ensures(should_prune::<E>, (e1, v1, &*state, &prog), pruned)
            &&& *v1 == arrival_counted(*env)
            &&& if pruned {
                exists|e2: &mut E, c2: &mut StateCache, sites: Vec<usize>|
                    {
                        &&& #[trigger] call_ensures(
                            E::end_path,
                            (e2, c2, &sites, (*state).parent_cache_id),
                            (),
                        )
                        &&& *c2 == final(v1).cache
                        &&& *final(env) == (VerifierEnv { cache: *final(c2), ..*final(v1) })
                    }
            } else {
                exists|e2: &mut E, v2: &mut VerifierEnv, s2: &mut State|
                    {
                        &&& #[trigger] call_ensures(
                            checkpoint_arrival::<E>,
                            (e2, v2, s2, &config),
                            (),
                        )
                        &&& *v2 == *final(v1)
                        &&& *s2 == *state
                        &&& final(env).cache == final(v2).cache
                    }
            }
        };
    lemma_pruned_or_not(e1, v1, arriving, prog, pruned, sparse, points);
    let b0 = (*env).cache@;
    let b1 = final(v1).cache@;
    let b2 = final(env).cache@;
    assert(stands_but_at(b0, b1, pc, sparse, points));
    if pruned {
        let (e2, c2, sites) = choose|e2: &mut E, c2: &mut StateCache, sites: Vec<usize>|
            {
                &&& #[trigger] call_ensures(
                    E::end_path,
                    (e2, c2, &sites, (*state).parent_cache_id),
                    (),
                )
                &&& *c2 == final(v1).cache
                &&& *final(env) == (VerifierEnv { cache: *final(c2), ..*final(v1) })
            };
        assert(lets_stand(b1, b2, sparse, points));
        if !sparse {
            assert(b2.bucket(pc).len() == b1.bucket(pc).len());
        }
    } else {
        let (e2, v2, s2) = choose|e2: &mut E, v2: &mut VerifierEnv, s2: &mut State|
            {
                &&& #[trigger] call_ensures(checkpoint_arrival::<E>, (e2, v2, s2, &config), ())
                &&& *v2 == *final(v1)
                &&& *s2 == *state
                &&& final(env).cache == final(v2).cache
            };
        lemma_checkpointed(e2, v2, s2, config, points);
    }
    assert forall|q: usize| sparse && #[trigger] b2.bucket(q).len() > 0 implies b0.bucket(q).len()
        > 0 || points.contains(q) by {
        if !points.contains(q) {
            assert(b1.bucket(q).len() > 0);
        }
    }
    assert forall|q: usize|
        !sparse && b2.next_id < u32::MAX && #[trigger] b0.bucket(q).len() > 0 implies b2.bucket(
        q,
    ).len() > 0 by {
        if q != pc {
            assert(b1.bucket(q).len() == b0.bucket(q).len());
            assert(b2.bucket(q).len() == b1.bucket(q).len());
        }
    }
}

proof fn lemma_received<E: Engine>(
    engine: &mut E,
    env: &mut VerifierEnv,
    prog: Program,
    config: VerifierConfig,
    state: &mut State,
    arrival: Arrival,
    sparse: bool,
    points: Set<usize>,
)
    requires
        forall|e: &mut E, c: &mut StateCache, id: u32| #[trigger]
            call_ensures(E::clean, (e, c, id), ()) ==> lets_stand(
                (*c)@,
                (*final(c))@,
                sparse,
                points,
            ),
        forall|
            e: &mut E,
            c: &mut StateCache,
            history: &Vec<Breadcrumb>,
            state: &State,
            cached: &State,
        | #[trigger]
            call_ensures(E::propagate_precision, (e, c, history, state, cached), ())
                ==> lets_stand((*c)@, (*final(c))@, sparse, points),
        forall|e: &mut E, c: &mut StateCache, state: &State, id: u32, pc: usize| #[trigger]
            call_ensures(E::add_backedge, (e, c, state, id, pc), ()) ==> lets_stand(
                (*c)@,
                (*final(c))@,
                sparse,
                points,
            ),
        forall|e: &mut E, c: &mut StateCache, sites: &Vec<usize>, parent: Option<u32>| #[trigger]
            call_ensures(E::end_path, (e, c, sites, parent), ()) ==> lets_stand(
                (*c)@,
                (*final(c))@,
                sparse,
                points,
            ),
        forall|e: &E, v: &VerifierEnv, pc: usize| #[trigger]
            call_ensures(E::is_prune_point, (e, v, pc), true) ==> points.contains(pc),
        sparse == (config.kernel_engine || (*env).bcf_enabled),
        call_ensures(receive::<E>, (engine, env, &prog, &config, state), arrival),
    ensures
        states_kept(
            old(env).cache@,
            final(env).cache@,
            sparse,
            points,
        ),
        !sparse && final(env).cache@.next_id < u32::MAX
            && old(env).error is None && !prog.invalid_pcs@.contains(old(state).pc) && old(
            env,
        ).counters.insn_processed < usize::MAX ==> final(env).cache@.bucket(old(state).pc).len()
            > 0,
        !sparse ==> final(env).cache@.next_id - old(env).cache@.next_id
            <= final(env).counters.insn_processed - old(env).counters.insn_processed,
{
    let counting = (*env).counters.insn_processed < usize::MAX;
    if (*env).error is None && !prog.invalid_pcs@.contains((*state).pc) && counting {
        let (e1, fresh, s1) = choose|e1: &mut E, fresh: VerifierEnv, s1: &mut State|
            {
                &&& #[trigger] call_ensures(adapt_types::<E>, (e1, &fresh, s1, &prog), ())
                &&& fresh == (VerifierEnv { bcf_path_unreachable: false, ..*env })
                &&& *s1 == arrived(*env, prog, *state)
                &&& exists|e2: &mut E, v2: &mut VerifierEnv, s2: &mut State|
                    {
                        &&& #[trigger] call_ensures(
                            decide_arrival::<E>,
                            (e2, v2, &prog, &config, s2),
                            arrival,
                        )
                        &&& *v2 == fresh
                        &&& *s2 == *final(s1)
                        &&& *final(env) == *final(v2)
                    }
            };
        let (e2, v2, s2) = choose|e2: &mut E, v2: &mut VerifierEnv, s2: &mut State|
            {
                &&& #[trigger] call_ensures(
                    decide_arrival::<E>,
                    (e2, v2, &prog, &config, s2),
                    arrival,
                )
                &&& *v2 == fresh
                &&& *s2 == *final(s1)
                &&& *final(env) == *final(v2)
            };
        lemma_arrival_decided(e2, v2, prog, config, s2, arrival, sparse, points);
        assert((*s2).pc == (*state).pc);
    } else {
        assert(final(env).cache == (*env).cache);
    }
}

// ---------------------------------------------------------------------------
// Rounds
// ---------------------------------------------------------------------------

proof fn lemma_step_settled<E: Engine>(
    engine: &mut E,
    env: &mut VerifierEnv,
    work: &mut Vec<State>,
    succs: Vec<State>,
    step: usize,
    origin: Origin,
    sparse: bool,
    points: Set<usize>,
)
    requires
        forall|e: &mut E, c: &mut StateCache, sites: &Vec<usize>, parent: Option<u32>| #[trigger]
            call_ensures(E::end_path, (e, c, sites, parent), ()) ==> lets_stand(
                (*c)@,
                (*final(c))@,
                sparse,
                points,
            ),
        call_ensures(settle_step::<E>, (engine, env, work, succs, step, &origin), ()),
    ensures
        lets_stand(old(env).cache@, final(env).cache@, sparse, points),
{
    let b0 = (*env).cache@;
    let b1 = final(env).cache@;
    if succs@.len() > 0 {
        assert(fork_counted(*env, *final(env), origin.parent, succs@.len() as usize));
        assert(states_stand(b0, b1));
    } else {
        let (e, c) = choose|e: &mut E, c: &mut StateCache|
            {
                &&& #[trigger] call_ensures(E::end_path, (e, c, &origin.sites, origin.parent), ())
                &&& *c == (*env).cache
                &&& final(env).cache == *final(c)
            };
        assert(lets_stand((*c)@, (*final(c))@, sparse, points));
    }
}

proof fn lemma_explored<E: Engine>(
    engine: &mut E,
    env: &mut VerifierEnv,
    prog: Program,
    state: State,
    work: &mut Vec<State>,
    goes_on: bool,
    sparse: bool,
    points: Set<usize>,
)
    requires
        forall|e: &mut E, c: &mut StateCache, sites: &Vec<usize>, parent: Option<u32>| #[trigger]
            call_ensures(E::end_path, (e, c, sites, parent), ()) ==> lets_stand(
                (*c)@,
                (*final(c))@,
                sparse,
                points,
            ),
        forall|e: &mut E, v: &mut VerifierEnv, state: State, instr: &Instr, succs: Vec<State>|
            #[trigger]
            call_ensures(E::transfer, (e, v, state, instr), succs) ==> lets_stand(
                (*v).cache@,
                final(v).cache@,
                sparse,
                points,
            ),
        call_ensures(explore::<E>, (engine, env, &prog, state, work), goes_on),
    ensures
        lets_stand(old(env).cache@, final(env).cache@, sparse, points),
{
    if state.pc < prog.instrs@.len() {
        let (instr, recorded, entering, e1, v1, succs) = choose|
            instr: Instr,
            recorded: VerifierEnv,
            entering: State,
            e1: &mut E,
            v1: &mut VerifierEnv,
            succs: Vec<State>,
        |
            {
                &&& #[trigger] step_recorded(*env, recorded, state, instr)
                &&& *v1 == jump_counted(recorded, instr)
                &&& #[trigger] call_ensures(
                    execute_step::<E>,
                    (e1, v1, &prog, entering, &instr),
                    succs,
                )
                &&& if !goes_on {
                    *final(env) == *final(v1)
                } else {
                    exists|
                        e2: &mut E,
                        v2: &mut VerifierEnv,
                        w2: &mut Vec<State>,
                        step: usize,
                        origin: Origin,
                    |
                        {
                            &&& #[trigger] call_ensures(
                                settle_step::<E>,
                                (e2, v2, w2, succs, step, &origin),
                                (),
                            )
                            &&& *v2 == *final(v1)
                            &&& *final(env) == *final(v2)
                        }
                }
            };
        let (e3, v3, running, made) = choose|
            e3: &mut E,
            v3: &mut VerifierEnv,
            running: State,
            made: Vec<State>,
        |
            {
                &&& #[trigger] call_ensures(E::transfer, (e3, v3, running, &instr), made)
                &&& *v3 == *v1
                &&& final(v1).cache == final(v3).cache
            };
        let b0 = (*env).cache@;
        let b1 = final(v1).cache@;
        let b2 = final(env).cache@;
        assert((*v3).cache == (*env).cache);
        assert(lets_stand(b0, b1, sparse, points));
        if goes_on {
            let (e2, v2, w2, step, origin) = choose|
                e2: &mut E,
                v2: &mut VerifierEnv,
                w2: &mut Vec<State>,
                step: usize,
                origin: Origin,
            |
                {
                    &&& #[trigger] call_ensures(
                        settle_step::<E>,
                        (e2, v2, w2, succs, step, &origin),
                        (),
                    )
                    &&& *v2 == *final(v1)
                    &&& *final(env) == *final(v2)
                };
            lemma_step_settled(e2, v2, w2, succs, step, origin, sparse, points);
            lemma_stand_on(b0, b1, b2, sparse, points);
        }
    }
}

/// A round keeps the cached states; without the sparse cache it leaves one where
/// it was made.
proof fn lemma_round<E: Engine>(
    round: Round<E>,
    prog: Program,
    config: VerifierConfig,
    sparse: bool,
    points: Set<usize>,
)
    requires
        forall|e: &mut E, c: &mut StateCache, id: u32| #[trigger]
            call_ensures(E::clean, (e, c, id), ()) ==> lets_stand(
                (*c)@,
                (*final(c))@,
                sparse,
                points,
            ),
        forall|
            e: &mut E,
            c: &mut StateCache,
            history: &Vec<Breadcrumb>,
            state: &State,
            cached: &State,
        | #[trigger]
            call_ensures(E::propagate_precision, (e, c, history, state, cached), ())
                ==> lets_stand((*c)@, (*final(c))@, sparse, points),
        forall|e: &mut E, c: &mut StateCache, state: &State, id: u32, pc: usize| #[trigger]
            call_ensures(E::add_backedge, (e, c, state, id, pc), ()) ==> lets_stand(
                (*c)@,
                (*final(c))@,
                sparse,
                points,
            ),
        forall|e: &mut E, c: &mut StateCache, sites: &Vec<usize>, parent: Option<u32>| #[trigger]
            call_ensures(E::end_path, (e, c, sites, parent), ()) ==> lets_stand(
                (*c)@,
                (*final(c))@,
                sparse,
                points,
            ),
        forall|e: &mut E, v: &mut VerifierEnv, state: State, instr: &Instr, succs: Vec<State>|
            #[trigger]
            call_ensures(E::transfer, (e, v, state, instr), succs) ==> lets_stand(
                (*v).cache@,
                final(v).cache@,
                sparse,
                points,
            ),
        forall|e: &E, v: &VerifierEnv, pc: usize| #[trigger]
            call_ensures(E::is_prune_point, (e, v, pc), true) ==> points.contains(pc),
        sparse == (config.kernel_engine || (*round.env).bcf_enabled),
        (*round.work)@.len() > 0,
        call_ensures(
            work_off::<E>,
            (round.engine, round.env, &prog, &config, round.work, round.pruned),
            round.goes_on,
        ),
    ensures
        states_kept(
            old(round.env).cache@,
            final(round.env).cache@,
            sparse,
            points,
        ),
        final(round.env).bcf_enabled == old(round.env).bcf_enabled,
        !sparse && final(round.env).cache@.next_id
            < u32::MAX && old(round.env).error is None && !prog.invalid_pcs@.contains(
            old(round.work)@.last().pc,
        ) && old(round.env).counters.insn_processed < usize::MAX
            ==> final(round.env).cache@.bucket(old(round.work)@.last().pc).len() > 0,
        !sparse ==> final(round.env).cache@.next_id - old(round.env).cache@.next_id
            <= final(round.env).counters.insn_processed
            - old(round.env).counters.insn_processed,
{
    let env = round.env;
    let last = (*round.work)@.last();
    let (e1, v1, s1, arrival) = choose|
        e1: &mut E,
        v1: &mut VerifierEnv,
        s1: &mut State,
        arrival: Arrival,
    |
        {
            &&& #[trigger] call_ensures(receive::<E>, (e1, v1, &prog, &config, s1), arrival)
            &&& *v1 == *env
            &&& *s1 == last
            &&& match arrival {
                Arrival::Stop => *final(env) == *final(v1),
                Arrival::Pruned => *final(env) == *final(v1),
                Arrival::Explore => exists|
                    e2: &mut E,
                    v2: &mut VerifierEnv,
                    received: State,
                    w2: &mut Vec<State>,
                |
                    {
                        &&& #[trigger] call_ensures(
                            explore::<E>,
                            (e2, v2, &prog, received, w2),
                            round.goes_on,
                        )
                        &&& *v2 == *final(v1)
                        &&& *final(env) == *final(v2)
                    },
            }
        };
    lemma_received(e1, v1, prog, config, s1, arrival, sparse, points);
    if arrival == Arrival::Explore {
        let (e2, v2, received, w2) = choose|
            e2: &mut E,
            v2: &mut VerifierEnv,
            received: State,
            w2: &mut Vec<State>,
        |
            {
                &&& #[trigger] call_ensures(
                    explore::<E>,
                    (e2, v2, &prog, received, w2),
                    round.goes_on,
                )
                &&& *v2 == *final(v1)
                &&& *final(env) == *final(v2)
            };
        lemma_explored(e2, v2, prog, received, w2, round.goes_on, sparse, points);
        let b1 = final(v1).cache@;
        let b2 = final(env).cache@;
        lemma_kept_where_standing(b1, b2, sparse, points);
        lemma_kept_on((*env).cache@, b1, b2, sparse, points);
        if !sparse {
            assert(b2.bucket(last.pc).len() == b1.bucket(last.pc).len());
        }
    }
}

/// Any number of rounds keeps the cached states; without the sparse cache they
/// leave one where the first one was made.
proof fn lemma_rounds<E: Engine>(
    moments: Seq<Moment<E>>,
    rounds: Seq<Round<E>>,
    prog: Program,
    config: VerifierConfig,
    sparse: bool,
    points: Set<usize>,
    n: nat,
)
    requires
        forall|e: &mut E, c: &mut StateCache, id: u32| #[trigger]
            call_ensures(E::clean, (e, c, id), ()) ==> lets_stand(
                (*c)@,
                (*final(c))@,
                sparse,
                points,
            ),
        forall|
            e: &mut E,
            c: &mut StateCache,
            history: &Vec<Breadcrumb>,
            state: &State,
            cached: &State,
        | #[trigger]
            call_ensures(E::propagate_precision, (e, c, history, state, cached), ())
                ==> lets_stand((*c)@, (*final(c))@, sparse, points),
        forall|e: &mut E, c: &mut StateCache, state: &State, id: u32, pc: usize| #[trigger]
            call_ensures(E::add_backedge, (e, c, state, id, pc), ()) ==> lets_stand(
                (*c)@,
                (*final(c))@,
                sparse,
                points,
            ),
        forall|e: &mut E, c: &mut StateCache, sites: &Vec<usize>, parent: Option<u32>| #[trigger]
            call_ensures(E::end_path, (e, c, sites, parent), ()) ==> lets_stand(
                (*c)@,
                (*final(c))@,
                sparse,
                points,
            ),
        forall|e: &mut E, v: &mut VerifierEnv, state: State, instr: &Instr, succs: Vec<State>|
            #[trigger]
            call_ensures(E::transfer, (e, v, state, instr), succs) ==> lets_stand(
                (*v).cache@,
                final(v).cache@,
                sparse,
                points,
            ),
        forall|e: &E, v: &VerifierEnv, pc: usize| #[trigger]
            call_ensures(E::is_prune_point, (e, v, pc), true) ==> points.contains(pc),
        sparse == (config.kernel_engine || moments[0].env.bcf_enabled),
        rounds_made(moments, rounds, prog, config),
        forall|i: int|
            0 <= i < rounds.len() ==> *final((#[trigger] rounds[i]).env) == moments[i + 1].env,
        n <= rounds.len(),
    ensures
        states_kept(
            moments[0].env.cache@,
            moments[n as int].env.cache@,
            sparse,
            points,
        ),
        moments[n as int].env.bcf_enabled == moments[0].env.bcf_enabled,
        n > 0 && !sparse
            && moments[n as int].env.cache@.next_id < u32::MAX && moments[0].env.error is None
            && !prog.invalid_pcs@.contains(moments[0].work.last().pc)
            && moments[0].env.counters.insn_processed < usize::MAX
            ==> moments[n as int].env.cache@.bucket(moments[0].work.last().pc).len() > 0,
        !sparse ==> moments[n as int].env.cache@.next_id - moments[0].env.cache@.next_id
            <= moments[n as int].env.counters.insn_processed
            - moments[0].env.counters.insn_processed,
    decreases n,
{
    if n > 0 {
        lemma_rounds(moments, rounds, prog, config, sparse, points, (n - 1) as nat);
        let round = rounds[n - 1];
        assert(round_made(moments[n - 1], round, prog, config));
        lemma_round(round, prog, config, sparse, points);
        let b0 = moments[0].env.cache@;
        let b1 = moments[n - 1].env.cache@;
        let b2 = moments[n as int].env.cache@;
        lemma_kept_on(b0, b1, b2, sparse, points);
        let pc = moments[0].work.last().pc;
        if n > 1 {
            assert(b1.bucket(pc).len() > 0 && !sparse && b2.next_id < u32::MAX ==> b2.bucket(
                pc,
            ).len() > 0);
        }
    }
}

// ---------------------------------------------------------------------------
// Laws
// ---------------------------------------------------------------------------

proof fn lemma_run<E: Engine>(
    engine: &mut E,
    env: &mut VerifierEnv,
    prog: Program,
    config: VerifierConfig,
    initial: State,
    pruned: usize,
    sparse: bool,
    points: Set<usize>,
)
    requires
        forall|e: &mut E, c: &mut StateCache, id: u32| #[trigger]
            call_ensures(E::clean, (e, c, id), ()) ==> lets_stand(
                (*c)@,
                (*final(c))@,
                sparse,
                points,
            ),
        forall|
            e: &mut E,
            c: &mut StateCache,
            history: &Vec<Breadcrumb>,
            state: &State,
            cached: &State,
        | #[trigger]
            call_ensures(E::propagate_precision, (e, c, history, state, cached), ())
                ==> lets_stand((*c)@, (*final(c))@, sparse, points),
        forall|e: &mut E, c: &mut StateCache, state: &State, id: u32, pc: usize| #[trigger]
            call_ensures(E::add_backedge, (e, c, state, id, pc), ()) ==> lets_stand(
                (*c)@,
                (*final(c))@,
                sparse,
                points,
            ),
        forall|e: &mut E, c: &mut StateCache, sites: &Vec<usize>, parent: Option<u32>| #[trigger]
            call_ensures(E::end_path, (e, c, sites, parent), ()) ==> lets_stand(
                (*c)@,
                (*final(c))@,
                sparse,
                points,
            ),
        forall|e: &mut E, v: &mut VerifierEnv, state: State, instr: &Instr, succs: Vec<State>|
            #[trigger]
            call_ensures(E::transfer, (e, v, state, instr), succs) ==> lets_stand(
                (*v).cache@,
                final(v).cache@,
                sparse,
                points,
            ),
        forall|e: &E, v: &VerifierEnv, pc: usize| #[trigger]
            call_ensures(E::is_prune_point, (e, v, pc), true) ==> points.contains(pc),
        sparse == (config.kernel_engine || (*env).bcf_enabled),
        call_ensures(run_worklist::<E>, (engine, env, &prog, &config, initial), pruned),
    ensures
        states_kept(
            old(env).cache@,
            final(env).cache@,
            sparse,
            points,
        ),
        !sparse && final(env).cache@.next_id < u32::MAX
            && old(env).error is None && !prog.invalid_pcs@.contains(initial.pc) && old(
            env,
        ).counters.insn_processed < usize::MAX ==> final(env).cache@.bucket(initial.pc).len() > 0,
        !sparse ==> final(env).cache@.next_id - old(env).cache@.next_id
            <= final(env).counters.insn_processed - old(env).counters.insn_processed,
{
    let (moments, rounds) = choose|moments: Seq<Moment<E>>, rounds: Seq<Round<E>>|
        {
            &&& #[trigger] rounds_made(moments, rounds, prog, config)
            &&& forall|i: int|
                0 <= i < rounds.len() ==> *final((#[trigger] rounds[i]).env) == moments[i + 1].env
            &&& moments[0].env == *env
            &&& moments[0].work == seq![initial]
            &&& moments.last().env == *final(env)
            &&& rounds.len() > 0
        };
    lemma_rounds(moments, rounds, prog, config, sparse, points, rounds.len());
}

/// With the sparse cache, states are cached at prune points only: a run that
/// starts with none elsewhere ends with none elsewhere, where the engine itself
/// caches nothing outside them.
pub proof fn law_sparse_caches_hold_prune_points_only<E: Engine>(
    engine: &mut E,
    env: &mut VerifierEnv,
    prog: Program,
    config: VerifierConfig,
    initial: State,
    pruned: usize,
    points: Set<usize>,
)
    requires
        forall|e: &mut E, c: &mut StateCache, id: u32| #[trigger]
            call_ensures(E::clean, (e, c, id), ()) ==> no_new_places((*c)@, (*final(c))@, points),
        forall|
            e: &mut E,
            c: &mut StateCache,
            history: &Vec<Breadcrumb>,
            state: &State,
            cached: &State,
        | #[trigger]
            call_ensures(E::propagate_precision, (e, c, history, state, cached), ())
                ==> no_new_places((*c)@, (*final(c))@, points),
        forall|e: &mut E, c: &mut StateCache, state: &State, id: u32, pc: usize| #[trigger]
            call_ensures(E::add_backedge, (e, c, state, id, pc), ()) ==> no_new_places(
                (*c)@,
                (*final(c))@,
                points,
            ),
        forall|e: &mut E, c: &mut StateCache, sites: &Vec<usize>, parent: Option<u32>| #[trigger]
            call_ensures(E::end_path, (e, c, sites, parent), ()) ==> no_new_places(
                (*c)@,
                (*final(c))@,
                points,
            ),
        forall|e: &mut E, v: &mut VerifierEnv, state: State, instr: &Instr, succs: Vec<State>|
            #[trigger]
            call_ensures(E::transfer, (e, v, state, instr), succs) ==> no_new_places(
                (*v).cache@,
                final(v).cache@,
                points,
            ),
        forall|e: &E, v: &VerifierEnv, pc: usize| #[trigger]
            call_ensures(E::is_prune_point, (e, v, pc), true) ==> points.contains(pc),
        call_ensures(run_worklist::<E>, (engine, env, &prog, &config, initial), pruned),
        config.kernel_engine || (*env).bcf_enabled,
        forall|q: usize| #[trigger]
            (*env).cache@.bucket(q).len() > 0 ==> points.contains(q),
    ensures
        forall|q: usize| #[trigger] final(env).cache@.bucket(q).len() > 0 ==> points.contains(q),
{
    lemma_run(engine, env, prog, config, initial, pruned, true, points);
}

/// Without the sparse cache, what was explored stays in the cache, also where the
/// run fails: no place that holds states loses all of them, and the place where the
/// run starts holds one. That is so where the engine lets the cached states stand
/// and the numbers of checkpoints have not run out.
pub proof fn law_explored_places_stay<E: Engine>(
    engine: &mut E,
    env: &mut VerifierEnv,
    prog: Program,
    config: VerifierConfig,
    initial: State,
    pruned: usize,
)
    requires
        forall|e: &mut E, c: &mut StateCache, id: u32| #[trigger]
            call_ensures(E::clean, (e, c, id), ()) ==> states_stand((*c)@, (*final(c))@),
        forall|
            e: &mut E,
            c: &mut StateCache,
            history: &Vec<Breadcrumb>,
            state: &State,
            cached: &State,
        | #[trigger]
            call_ensures(E::propagate_precision, (e, c, history, state, cached), ())
                ==> states_stand((*c)@, (*final(c))@),
        forall|e: &mut E, c: &mut StateCache, state: &State, id: u32, pc: usize| #[trigger]
            call_ensures(E::add_backedge, (e, c, state, id, pc), ()) ==> states_stand(
                (*c)@,
                (*final(c))@,
            ),
        forall|e: &mut E, c: &mut StateCache, sites: &Vec<usize>, parent: Option<u32>| #[trigger]
            call_ensures(E::end_path, (e, c, sites, parent), ()) ==> states_stand(
                (*c)@,
                (*final(c))@,
            ),
        forall|e: &mut E, v: &mut VerifierEnv, state: State, instr: &Instr, succs: Vec<State>|
            #[trigger]
            call_ensures(E::transfer, (e, v, state, instr), succs) ==> states_stand(
                (*v).cache@,
                final(v).cache@,
            ),
        call_ensures(run_worklist::<E>, (engine, env, &prog, &config, initial), pruned),
        !config.kernel_engine && !(*env).bcf_enabled,
        final(env).cache@.next_id < u32::MAX,
    ensures
        forall|q: usize| #[trigger]
            old(env).cache@.bucket(q).len() > 0 ==> final(env).cache@.bucket(q).len() > 0,
        old(env).error is None && !prog.invalid_pcs@.contains(initial.pc) && old(
            env,
        ).counters.insn_processed < usize::MAX ==> final(env).cache@.bucket(initial.pc).len() > 0,
{
    lemma_run(engine, env, prog, config, initial, pruned, false, Set::full());
}

/// An analysis that was not refused gives at least one state for the first
/// instruction, also where it fails later: without the sparse cache, where the
/// engine lets the cached states stand and no more arrivals were processed than
/// there are numbers of checkpoints.
pub proof fn law_first_states_are_in_the_result<E: Engine>(
    engine: &mut E,
    ctx: ExecContext,
    prog: Program,
    entry_dbm: Dbm,
    config: VerifierConfig,
    certificate: Option<Certificate>,
    r: AnalysisResult,
)
    requires
        forall|e: &mut E, c: &mut StateCache, id: u32| #[trigger]
            call_ensures(E::clean, (e, c, id), ()) ==> states_stand((*c)@, (*final(c))@),
        forall|
            e: &mut E,
            c: &mut StateCache,
            history: &Vec<Breadcrumb>,
            state: &State,
            cached: &State,
        | #[trigger]
            call_ensures(E::propagate_precision, (e, c, history, state, cached), ())
                ==> states_stand((*c)@, (*final(c))@),
        forall|e: &mut E, c: &mut StateCache, state: &State, id: u32, pc: usize| #[trigger]
            call_ensures(E::add_backedge, (e, c, state, id, pc), ()) ==> states_stand(
                (*c)@,
                (*final(c))@,
            ),
        forall|e: &mut E, c: &mut StateCache, sites: &Vec<usize>, parent: Option<u32>| #[trigger]
            call_ensures(E::end_path, (e, c, sites, parent), ()) ==> states_stand(
                (*c)@,
                (*final(c))@,
            ),
        forall|e: &mut E, v: &mut VerifierEnv, state: State, instr: &Instr, succs: Vec<State>|
            #[trigger]
            call_ensures(E::transfer, (e, v, state, instr), succs) ==> states_stand(
                (*v).cache@,
                final(v).cache@,
            ),
        call_ensures(
            analyze_program_full::<E>,
            (engine, &ctx, &prog, entry_dbm, &config, certificate),
            r,
        ),
        !config.kernel_engine && !config.bcf_enabled,
        !prog.invalid_pcs@.contains(0),
        r.dbms@.len() > 0,
        r.stats.insn_processed < u32::MAX,
    ensures
        r.explored_states@.contains_key(0),
        r.explored_states@[0]@.len() > 0,
{
    let (cert, e, domain) = choose|cert: Option<Certificate>, e: &mut E, domain: NumericDomain|
        {
            &&& #[trigger] call_ensures(
                choose_certificate::<E>,
                (&*engine, &prog, certificate),
                cert,
            )
            &&& #[trigger] call_ensures(
                analyze_from::<E>,
                (e, &ctx, &prog, domain, &config, cert),
                r,
            )
        };
    let refusal = choose|refusal: Option<VerificationError>|
        {
            &&& #[trigger] may_refuse(*e, ctx, prog, config, refusal)
            &&& if refusal is Some {
                nothing_explored(r)
            } else if map_refused(ctx) {
                nothing_explored(r)
            } else {
                exists|e1: &mut E, v1: &mut VerifierEnv, failure: Option<String>|
                    {
                        &&& starts_blank(
                            *v1,
                            ctx,
                            prog,
                            cert,
                            is_kernel_faithful(config),
                            config.bcf_enabled,
                        )
                        &&& #[trigger] call_ensures(
                            run_passes::<E>,
                            (e1, v1, &prog, true),
                            failure,
                        )
                        &&& match failure {
                            Some(text) => nothing_explored(r),
                            None => exists|e2: &mut E, explored: VerifierEnv|
                                {
                                    &&& #[trigger] call_ensures(
                                        explore_program::<E>,
                                        (e2, explored, &prog, domain, &config),
                                        r,
                                    )
                                    &&& explored == *final(v1)
                                },
                        }
                    }
            }
        };
    let (e1, v1, failure) = choose|e1: &mut E, v1: &mut VerifierEnv, failure: Option<String>|
        {
            &&& starts_blank(
                *v1,
                ctx,
                prog,
                cert,
                is_kernel_faithful(config),
                config.bcf_enabled,
            )
            &&& #[trigger] call_ensures(run_passes::<E>, (e1, v1, &prog, true), failure)
            &&& match failure {
                Some(text) => nothing_explored(r),
                None => exists|e2: &mut E, explored: VerifierEnv|
                    {
                        &&& #[trigger] call_ensures(
                            explore_program::<E>,
                            (e2, explored, &prog, domain, &config),
                            r,
                        )
                        &&& explored == *final(v1)
                    },
            }
        };
    let (e2, explored) = choose|e2: &mut E, explored: VerifierEnv|
        {
            &&& #[trigger] call_ensures(
                explore_program::<E>,
                (e2, explored, &prog, domain, &config),
                r,
            )
            &&& explored == *final(v1)
        };
    let (anchored, e3, v3, initial, pruned) = choose|
        anchored: NumericDomain,
        e3: &mut E,
        v3: &mut VerifierEnv,
        initial: State,
        pruned: usize,
    |
        {
            &&& #[trigger] call_ensures(
                run_worklist::<E>,
                (e3, v3, &prog, &config, initial),
                pruned,
            )
            &&& *v3 == explored
            &&& initial@ == #[trigger] entry_view(*explored.ctx, config.bcf_enabled, anchored)
            &&& result_of(r, *final(v3), pruned, prog.instrs@.len())
        };
    law_entry_state(*explored.ctx, config.bcf_enabled, anchored);
    assert(initial.pc == 0);
    lemma_run(e3, v3, prog, config, initial, pruned, false, Set::full());
}

}
