//! Two runs of an engine that is decided by what it is given: where they start
//! alike, they end alike.

use vstd::prelude::*;

use crate::ast::{Instr, Program};
use crate::behaviour::{by_contents, Behaviour};
use crate::cache::{saturated, StateCache};
use crate::contents::{
    cache_content, env_content, history_content, lemma_same_views, lemma_views_read, state_views,
};
use crate::engine::Engine;
use crate::env::{Breadcrumb, VerifierConfig, VerifierEnv};
use crate::machine::State;
use crate::same_arrivals::{lemma_same_received, receive_call};
use crate::same_steps::{explore_call, lemma_same_explored};
use crate::worklist::{
    explore, receive, round_made, rounds_made, run_worklist, shown, work_off, Arrival, Moment,
    Round,
};

verus! {

// ---------------------------------------------------------------------------
// Rounds
// ---------------------------------------------------------------------------

/// Whether a call of `work_off` may end so.
#[verifier::opaque]
pub open spec fn round_call<E: Engine>(
    e: &mut E,
    v: &mut VerifierEnv,
    prog: Program,
    config: VerifierConfig,
    work: &mut Vec<State>,
    p: &mut usize,
    r: bool,
) -> bool {
    call_ensures(work_off::<E>, (e, v, &prog, &config, work, p), r)
}

/// Whether a call of `run_worklist` may end so.
#[verifier::opaque]
pub open spec fn run_call<E: Engine>(
    e: &mut E,
    v: &mut VerifierEnv,
    prog: Program,
    config: VerifierConfig,
    initial: State,
    pruned: usize,
) -> bool {
    call_ensures(run_worklist::<E>, (e, v, &prog, &config, initial), pruned)
}

pub(crate) proof fn lemma_round_parts<E: Engine>(
    e: &mut E,
    v: &mut VerifierEnv,
    prog: Program,
    config: VerifierConfig,
    work: &mut Vec<State>,
    p: &mut usize,
    r: bool,
)
    requires
        round_call(e, v, prog, config, work, p, r),
    ensures
        exists|x: &mut E, z: &mut VerifierEnv, t: &mut State, arrival: Arrival|
            {
                &&& #[trigger] receive_call(x, z, prog, config, t, arrival)
                &&& *x == *old(e)
                &&& *z == *old(v)
                &&& *t == (*old(work))@.last()
                &&& match arrival {
                    Arrival::Stop => {
                        &&& !r
                        &&& *final(e) == *final(x)
                        &&& *final(v) == *final(z)
                        &&& final(work)@ == (*old(work))@.drop_last()
                        &&& *final(p) == *old(p)
                    },
                    Arrival::Pruned => {
                        &&& r
                        &&& *final(e) == *final(x)
                        &&& *final(v) == *final(z)
                        &&& final(work)@ == (*old(work))@.drop_last()
                        &&& *final(p) == saturated(*old(p) + 1)
                    },
                    Arrival::Explore => exists|
                        y: &mut E,
                        u: &mut VerifierEnv,
                        received: State,
                        q: &mut Vec<State>,
                    |
                        {
                            &&& #[trigger] explore_call(y, u, prog, received, q, r)
                            &&& *y == *final(x)
                            &&& *u == *final(z)
                            &&& received == *final(t)
                            &&& (*q)@ == (*old(work))@.drop_last()
                            &&& *final(e) == *final(y)
                            &&& *final(v) == *final(u)
                            &&& final(work)@ == (*final(q))@
                            &&& *final(p) == *old(p)
                        },
                }
            },
{
    reveal(round_call);
    reveal(receive_call);
    let (x, z, t, arrival) = choose|x: &mut E, z: &mut VerifierEnv, t: &mut State, arrival: Arrival|
        {
            &&& #[trigger] call_ensures(receive::<E>, (x, z, &prog, &config, t), arrival)
            &&& *x == *e
            &&& *z == *v
            &&& *t == (*work)@.last()
            &&& match arrival {
                Arrival::Stop => {
                    &&& !r
                    &&& *final(e) == *final(x)
                    &&& *final(v) == *final(z)
                    &&& final(work)@ == (*work)@.drop_last()
                    &&& *final(p) == *p
                },
                Arrival::Pruned => {
                    &&& r
                    &&& *final(e) == *final(x)
                    &&& *final(v) == *final(z)
                    &&& final(work)@ == (*work)@.drop_last()
                    &&& *final(p) == saturated(*p + 1)
                },
                Arrival::Explore => exists|
                    y: &mut E,
                    u: &mut VerifierEnv,
                    received: State,
                    q: &mut Vec<State>,
                |
                    {
                        &&& #[trigger] call_ensures(explore::<E>, (y, u, &prog, received, q), r)
                        &&& *y == *final(x)
                        &&& *u == *final(z)
                        &&& received == *final(t)
                        &&& (*q)@ == (*work)@.drop_last()
                        &&& *final(e) == *final(y)
                        &&& *final(v) == *final(u)
                        &&& final(work)@ == (*final(q))@
                        &&& *final(p) == *p
                    },
            }
        };
    assert(receive_call(x, z, prog, config, t, arrival));
    if arrival == Arrival::Explore {
        reveal(explore_call);
        let (y, u, received, q) = choose|
            y: &mut E,
            u: &mut VerifierEnv,
            received: State,
            q: &mut Vec<State>,
        |
            {
                &&& #[trigger] call_ensures(explore::<E>, (y, u, &prog, received, q), r)
                &&& *y == *final(x)
                &&& *u == *final(z)
                &&& received == *final(t)
                &&& (*q)@ == (*work)@.drop_last()
                &&& *final(e) == *final(y)
                &&& *final(v) == *final(u)
                &&& final(work)@ == (*final(q))@
                &&& *final(p) == *p
            };
        assert(explore_call(y, u, prog, received, q, r));
    }
}

pub(crate) proof fn lemma_same_round<E: Engine>(
    b: Behaviour<E>,
    e1: &mut E,
    v1: &mut VerifierEnv,
    work1: &mut Vec<State>,
    e2: &mut E,
    v2: &mut VerifierEnv,
    work2: &mut Vec<State>,
    p1: &mut usize,
    p2: &mut usize,
    prog: Program,
    config: VerifierConfig,
    r1: bool,
    r2: bool,
)
    requires
        by_contents(b),
        forall|e: &mut E, c: &mut StateCache, id: u32| #[trigger]
            call_ensures(E::clean, (e, c, id), ()) ==> {
                let after = (b.clean)(*e, cache_content((*c)@), id);
                *final(e) == after.0 && cache_content((*final(c))@) == after.1
            },
        forall|e: &mut E, c: &mut StateCache, h: &Vec<Breadcrumb>, s: &State, k: &State| #[trigger]
            call_ensures(E::propagate_precision, (e, c, h, s, k), ()) ==> {
                let after = (b.precision)(
                    *e,
                    cache_content((*c)@),
                    history_content(h@),
                    s@,
                    k@,
                );
                *final(e) == after.0 && cache_content((*final(c))@) == after.1
            },
        forall|e: &mut E, c: &mut StateCache, s: &State, id: u32, pc: usize| #[trigger]
            call_ensures(E::add_backedge, (e, c, s, id, pc), ()) ==> {
                let after = (b.backedge)(*e, cache_content((*c)@), s@, id, pc);
                *final(e) == after.0 && cache_content((*final(c))@) == after.1
            },
        forall|e: &mut E, c: &mut StateCache, sites: &Vec<usize>, parent: Option<u32>| #[trigger]
            call_ensures(E::end_path, (e, c, sites, parent), ()) ==> {
                let after = (b.end_path)(*e, cache_content((*c)@), sites@, parent);
                *final(e) == after.0 && cache_content((*final(c))@) == after.1
            },
        forall|e: &mut E, v: &mut VerifierEnv, s: State, instr: &Instr, succs: Vec<State>|
            #[trigger]
            call_ensures(E::transfer, (e, v, s, instr), succs) ==> {
                let after = (b.transfer)(*e, env_content(*v), s@, *instr);
                *final(e) == after.0 && env_content(*final(v)) == after.1 && state_views(succs@)
                    == after.2
            },
        forall|e: &mut E, v: &VerifierEnv, s: &mut State| #[trigger]
            call_ensures(E::resolve_type_conflicts, (e, v, s), ()) ==> {
                let after = (b.adapt)(*e, env_content(*v), (*s)@);
                *final(e) == after.0 && (*final(s))@ == after.1
            },
        forall|e: &mut E, v: &VerifierEnv, s: State, r: State| #[trigger]
            call_ensures(E::prepare_for_cache, (e, v, s), r) ==> {
                let after = (b.prepare)(*e, env_content(*v), s@);
                *final(e) == after.0 && r@ == after.1
            },
        forall|e: &mut E, s: &mut State| #[trigger]
            call_ensures(E::begin_step, (e, s), ()) ==> {
                let after = (b.begin)(*e, (*s)@);
                *final(e) == after.0 && (*final(s))@ == after.1
            },
        forall|e: &mut E| #[trigger]
            call_ensures(E::end_step, (e,), ()) ==> *final(e) == (b.end_step)(*e),
        forall|e: &E, s: &mut State, shown: &Vec<u64>| #[trigger]
            call_ensures(E::apply_refinements, (e, s, shown), ()) ==> (*final(s))@ == (b.refine)(
                *e,
                (*s)@,
                shown@,
            ),
        round_call(e1, v1, prog, config, work1, p1, r1),
        round_call(e2, v2, prog, config, work2, p2, r2),
        *e1 == *e2,
        env_content(*v1) == env_content(*v2),
        state_views((*work1)@) == state_views((*work2)@),
        (*work1)@.len() > 0,
        *p1 == *p2,
    ensures
        r1 == r2,
        *final(e1) == *final(e2),
        env_content(*final(v1)) == env_content(*final(v2)),
        state_views((*final(work1))@) == state_views((*final(work2))@),
        *final(p1) == *final(p2),
{
    lemma_round_parts(e1, v1, prog, config, work1, p1, r1);
    lemma_round_parts(e2, v2, prog, config, work2, p2, r2);
    let (x1, z1, t1, arrival1) = choose|
        x: &mut E,
        z: &mut VerifierEnv,
        t: &mut State,
        arrival: Arrival,
    |
        {
            &&& #[trigger] receive_call(x, z, prog, config, t, arrival)
            &&& *x == *e1
            &&& *z == *v1
            &&& *t == (*work1)@.last()
            &&& match arrival {
                Arrival::Stop => {
                    &&& !r1
                    &&& *final(e1) == *final(x)
                    &&& *final(v1) == *final(z)
                    &&& final(work1)@ == (*work1)@.drop_last()
                    &&& *final(p1) == *p1
                },
                Arrival::Pruned => {
                    &&& r1
                    &&& *final(e1) == *final(x)
                    &&& *final(v1) == *final(z)
                    &&& final(work1)@ == (*work1)@.drop_last()
                    &&& *final(p1) == saturated(*p1 + 1)
                },
                Arrival::Explore => exists|
                    y: &mut E,
                    u: &mut VerifierEnv,
                    received: State,
                    q: &mut Vec<State>,
                |
                    {
                        &&& #[trigger] explore_call(y, u, prog, received, q, r1)
                        &&& *y == *final(x)
                        &&& *u == *final(z)
                        &&& received == *final(t)
                        &&& (*q)@ == (*work1)@.drop_last()
                        &&& *final(e1) == *final(y)
                        &&& *final(v1) == *final(u)
                        &&& final(work1)@ == (*final(q))@
                        &&& *final(p1) == *p1
                    },
            }
        };
    let (x2, z2, t2, arrival2) = choose|
        x: &mut E,
        z: &mut VerifierEnv,
        t: &mut State,
        arrival: Arrival,
    |
        {
            &&& #[trigger] receive_call(x, z, prog, config, t, arrival)
            &&& *x == *e2
            &&& *z == *v2
            &&& *t == (*work2)@.last()
            &&& match arrival {
                Arrival::Stop => {
                    &&& !r2
                    &&& *final(e2) == *final(x)
                    &&& *final(v2) == *final(z)
                    &&& final(work2)@ == (*work2)@.drop_last()
                    &&& *final(p2) == *p2
                },
                Arrival::Pruned => {
                    &&& r2
                    &&& *final(e2) == *final(x)
                    &&& *final(v2) == *final(z)
                    &&& final(work2)@ == (*work2)@.drop_last()
                    &&& *final(p2) == saturated(*p2 + 1)
                },
                Arrival::Explore => exists|
                    y: &mut E,
                    u: &mut VerifierEnv,
                    received: State,
                    q: &mut Vec<State>,
                |
                    {
                        &&& #[trigger] explore_call(y, u, prog, received, q, r2)
                        &&& *y == *final(x)
                        &&& *u == *final(z)
                        &&& received == *final(t)
                        &&& (*q)@ == (*work2)@.drop_last()
                        &&& *final(e2) == *final(y)
                        &&& *final(v2) == *final(u)
                        &&& final(work2)@ == (*final(q))@
                        &&& *final(p2) == *p2
                    },
            }
        };
    let w1 = (*work1)@;
    let w2 = (*work2)@;
    lemma_views_read(w1, w2);
    assert(w1.last()@ == w2.last()@);
    assert forall|i: int| 0 <= i < w1.drop_last().len() implies (#[trigger] w1.drop_last()[i])@
        == w2.drop_last()[i]@ by {
        assert(w1[i]@ == w2[i]@);
    }
    lemma_same_views(w1.drop_last(), w2.drop_last());
    lemma_same_received(b, x1, z1, t1, x2, z2, t2, prog, config, arrival1, arrival2);
    if arrival1 == Arrival::Explore {
        let (y1, u1, received1, q1) = choose|
            y: &mut E,
            u: &mut VerifierEnv,
            received: State,
            q: &mut Vec<State>,
        |
            {
                &&& #[trigger] explore_call(y, u, prog, received, q, r1)
                &&& *y == *final(x1)
                &&& *u == *final(z1)
                &&& received == *final(t1)
                &&& (*q)@ == (*work1)@.drop_last()
                &&& *final(e1) == *final(y)
                &&& *final(v1) == *final(u)
                &&& final(work1)@ == (*final(q))@
                &&& *final(p1) == *p1
            };
        let (y2, u2, received2, q2) = choose|
            y: &mut E,
            u: &mut VerifierEnv,
            received: State,
            q: &mut Vec<State>,
        |
            {
                &&& #[trigger] explore_call(y, u, prog, received, q, r2)
                &&& *y == *final(x2)
                &&& *u == *final(z2)
                &&& received == *final(t2)
                &&& (*q)@ == (*work2)@.drop_last()
                &&& *final(e2) == *final(y)
                &&& *final(v2) == *final(u)
                &&& final(work2)@ == (*final(q))@
                &&& *final(p2) == *p2
            };
        lemma_same_explored(b, y1, u1, q1, y2, u2, q2, prog, received1, received2, r1, r2);
    }
}

// ---------------------------------------------------------------------------
// Runs
// ---------------------------------------------------------------------------

/// Whether these are the rounds of a run.
#[verifier::opaque]
pub open spec fn rounds_taken<E: Engine>(
    moments: Seq<Moment<E>>,
    rounds: Seq<Round<E>>,
    prog: Program,
    config: VerifierConfig,
) -> bool {
    rounds_made(moments, rounds, prog, config)
}

pub(crate) proof fn lemma_round_at<E: Engine>(
    moments: Seq<Moment<E>>,
    rounds: Seq<Round<E>>,
    prog: Program,
    config: VerifierConfig,
    i: int,
)
    requires
        rounds_taken(moments, rounds, prog, config),
        0 <= i < rounds.len(),
    ensures
        moments.len() == rounds.len() + 1,
        moments[i].work.len() > 0,
        *rounds[i].engine == moments[i].engine,
        *rounds[i].env == moments[i].env,
        (*rounds[i].work)@ == moments[i].work,
        *rounds[i].pruned == moments[i].pruned,
        round_call(
            rounds[i].engine,
            rounds[i].env,
            prog,
            config,
            rounds[i].work,
            rounds[i].pruned,
            rounds[i].goes_on,
        ),
        i < rounds.len() - 1 ==> rounds[i].goes_on,
{
    reveal(rounds_taken);
    reveal(round_call);
    assert(round_made(moments[i], rounds[i], prog, config));
}

pub(crate) proof fn lemma_same_moments<E: Engine>(
    b: Behaviour<E>,
    moments1: Seq<Moment<E>>,
    rounds1: Seq<Round<E>>,
    moments2: Seq<Moment<E>>,
    rounds2: Seq<Round<E>>,
    prog: Program,
    config: VerifierConfig,
    n: nat,
)
    requires
        by_contents(b),
        forall|e: &mut E, c: &mut StateCache, id: u32| #[trigger]
            call_ensures(E::clean, (e, c, id), ()) ==> {
                let after = (b.clean)(*e, cache_content((*c)@), id);
                *final(e) == after.0 && cache_content((*final(c))@) == after.1
            },
        forall|e: &mut E, c: &mut StateCache, h: &Vec<Breadcrumb>, s: &State, k: &State| #[trigger]
            call_ensures(E::propagate_precision, (e, c, h, s, k), ()) ==> {
                let after = (b.precision)(
                    *e,
                    cache_content((*c)@),
                    history_content(h@),
                    s@,
                    k@,
                );
                *final(e) == after.0 && cache_content((*final(c))@) == after.1
            },
        forall|e: &mut E, c: &mut StateCache, s: &State, id: u32, pc: usize| #[trigger]
            call_ensures(E::add_backedge, (e, c, s, id, pc), ()) ==> {
                let after = (b.backedge)(*e, cache_content((*c)@), s@, id, pc);
                *final(e) == after.0 && cache_content((*final(c))@) == after.1
            },
        forall|e: &mut E, c: &mut StateCache, sites: &Vec<usize>, parent: Option<u32>| #[trigger]
            call_ensures(E::end_path, (e, c, sites, parent), ()) ==> {
                let after = (b.end_path)(*e, cache_content((*c)@), sites@, parent);
                *final(e) == after.0 && cache_content((*final(c))@) == after.1
            },
        forall|e: &mut E, v: &mut VerifierEnv, s: State, instr: &Instr, succs: Vec<State>|
            #[trigger]
            call_ensures(E::transfer, (e, v, s, instr), succs) ==> {
                let after = (b.transfer)(*e, env_content(*v), s@, *instr);
                *final(e) == after.0 && env_content(*final(v)) == after.1 && state_views(succs@)
                    == after.2
            },
        forall|e: &mut E, v: &VerifierEnv, s: &mut State| #[trigger]
            call_ensures(E::resolve_type_conflicts, (e, v, s), ()) ==> {
                let after = (b.adapt)(*e, env_content(*v), (*s)@);
                *final(e) == after.0 && (*final(s))@ == after.1
            },
        forall|e: &mut E, v: &VerifierEnv, s: State, r: State| #[trigger]
            call_ensures(E::prepare_for_cache, (e, v, s), r) ==> {
                let after = (b.prepare)(*e, env_content(*v), s@);
                *final(e) == after.0 && r@ == after.1
            },
        forall|e: &mut E, s: &mut State| #[trigger]
            call_ensures(E::begin_step, (e, s), ()) ==> {
                let after = (b.begin)(*e, (*s)@);
                *final(e) == after.0 && (*final(s))@ == after.1
            },
        forall|e: &mut E| #[trigger]
            call_ensures(E::end_step, (e,), ()) ==> *final(e) == (b.end_step)(*e),
        forall|e: &E, s: &mut State, shown: &Vec<u64>| #[trigger]
            call_ensures(E::apply_refinements, (e, s, shown), ()) ==> (*final(s))@ == (b.refine)(
                *e,
                (*s)@,
                shown@,
            ),
        rounds_taken(moments1, rounds1, prog, config),
        rounds_taken(moments2, rounds2, prog, config),
        forall|i: int|
            0 <= i < rounds1.len() ==> {
                &&& *final((#[trigger] rounds1[i]).engine) == moments1[i + 1].engine
                &&& *final(rounds1[i].env) == moments1[i + 1].env
                &&& (*final(rounds1[i].work))@ == moments1[i + 1].work
                &&& *final(rounds1[i].pruned) == moments1[i + 1].pruned
            },
        forall|i: int|
            0 <= i < rounds2.len() ==> {
                &&& *final((#[trigger] rounds2[i]).engine) == moments2[i + 1].engine
                &&& *final(rounds2[i].env) == moments2[i + 1].env
                &&& (*final(rounds2[i].work))@ == moments2[i + 1].work
                &&& *final(rounds2[i].pruned) == moments2[i + 1].pruned
            },
        moments1[0].engine == moments2[0].engine,
        env_content(moments1[0].env) == env_content(moments2[0].env),
        state_views(moments1[0].work) == state_views(moments2[0].work),
        moments1[0].pruned == moments2[0].pruned,
        n <= rounds1.len(),
        n <= rounds2.len(),
    ensures
        moments1[n as int].engine == moments2[n as int].engine,
        env_content(moments1[n as int].env) == env_content(moments2[n as int].env),
        state_views(moments1[n as int].work) == state_views(moments2[n as int].work),
        moments1[n as int].pruned == moments2[n as int].pruned,
        n > 0 ==> rounds1[n - 1].goes_on == rounds2[n - 1].goes_on,
    decreases n,
{
    if n > 0 {
        lemma_same_moments(
            b,
            moments1,
            rounds1,
            moments2,
            rounds2,
            prog,
            config,
            (n - 1) as nat,
        );
        lemma_round_at(moments1, rounds1, prog, config, n - 1);
        lemma_round_at(moments2, rounds2, prog, config, n - 1);
        let x = rounds1[n - 1];
        let y = rounds2[n - 1];
        lemma_same_round(
            b,
            x.engine,
            x.env,
            x.work,
            y.engine,
            y.env,
            y.work,
            x.pruned,
            y.pruned,
            prog,
            config,
            x.goes_on,
            y.goes_on,
        );
    }
}

pub(crate) proof fn lemma_run_parts<E: Engine>(
    e: &mut E,
    v: &mut VerifierEnv,
    prog: Program,
    config: VerifierConfig,
    initial: State,
    pruned: usize,
)
    requires
        run_call(e, v, prog, config, initial, pruned),
    ensures
        exists|moments: Seq<Moment<E>>, rounds: Seq<Round<E>>|
            {
                &&& #[trigger] rounds_taken(moments, rounds, prog, config)
                &&& forall|i: int|
                    0 <= i < rounds.len() ==> {
                        &&& *final((#[trigger] rounds[i]).engine) == moments[i + 1].engine
                        &&& *final(rounds[i].env) == moments[i + 1].env
                        &&& (*final(rounds[i].work))@ == moments[i + 1].work
                        &&& *final(rounds[i].pruned) == moments[i + 1].pruned
                    }
                &&& moments[0] == (Moment {
                    engine: *old(e),
                    env: *old(v),
                    work: seq![initial],
                    pruned: 0,
                })
                &&& moments.last().engine == *final(e)
                &&& moments.last().env == *final(v)
                &&& moments.last().pruned == pruned
                &&& rounds.len() > 0
                &&& !rounds.last().goes_on || moments.last().work.len() == 0
            },
{
    reveal(run_call);
    reveal(rounds_taken);
    let (moments, rounds) = choose|moments: Seq<Moment<E>>, rounds: Seq<Round<E>>|
        {
            &&& #[trigger] rounds_made(moments, rounds, prog, config)
            &&& forall|i: int|
                0 <= i < rounds.len() ==> {
                    &&& *final((#[trigger] rounds[i]).engine) == moments[i + 1].engine
                    &&& *final(rounds[i].env) == moments[i + 1].env
                    &&& (*final(rounds[i].work))@ == moments[i + 1].work
                    &&& *final(rounds[i].pruned) == moments[i + 1].pruned
                }
            &&& moments[0] == (Moment {
                engine: *e,
                env: *v,
                work: seq![initial],
                pruned: 0,
            })
            &&& moments.last().engine == *final(e)
            &&& moments.last().env == *final(v)
            &&& moments.last().pruned == pruned
            &&& rounds.len() > 0
            &&& !rounds.last().goes_on || moments.last().work.len() == 0
        };
    assert(rounds_taken(moments, rounds, prog, config));
}

pub(crate) proof fn lemma_same_run<E: Engine>(
    b: Behaviour<E>,
    e1: &mut E,
    v1: &mut VerifierEnv,
    e2: &mut E,
    v2: &mut VerifierEnv,
    prog: Program,
    config: VerifierConfig,
    initial1: State,
    initial2: State,
    pruned1: usize,
    pruned2: usize,
)
    requires
        by_contents(b),
        forall|e: &mut E, c: &mut StateCache, id: u32| #[trigger]
            call_ensures(E::clean, (e, c, id), ()) ==> {
                let after = (b.clean)(*e, cache_content((*c)@), id);
                *final(e) == after.0 && cache_content((*final(c))@) == after.1
            },
        forall|e: &mut E, c: &mut StateCache, h: &Vec<Breadcrumb>, s: &State, k: &State| #[trigger]
            call_ensures(E::propagate_precision, (e, c, h, s, k), ()) ==> {
                let after = (b.precision)(
                    *e,
                    cache_content((*c)@),
                    history_content(h@),
                    s@,
                    k@,
                );
                *final(e) == after.0 && cache_content((*final(c))@) == after.1
            },
        forall|e: &mut E, c: &mut StateCache, s: &State, id: u32, pc: usize| #[trigger]
            call_ensures(E::add_backedge, (e, c, s, id, pc), ()) ==> {
                let after = (b.backedge)(*e, cache_content((*c)@), s@, id, pc);
                *final(e) == after.0 && cache_content((*final(c))@) == after.1
            },
        forall|e: &mut E, c: &mut StateCache, sites: &Vec<usize>, parent: Option<u32>| #[trigger]
            call_ensures(E::end_path, (e, c, sites, parent), ()) ==> {
                let after = (b.end_path)(*e, cache_content((*c)@), sites@, parent);
                *final(e) == after.0 && cache_content((*final(c))@) == after.1
            },
        forall|e: &mut E, v: &mut VerifierEnv, s: State, instr: &Instr, succs: Vec<State>|
            #[trigger]
            call_ensures(E::transfer, (e, v, s, instr), succs) ==> {
                let after = (b.transfer)(*e, env_content(*v), s@, *instr);
                *final(e) == after.0 && env_content(*final(v)) == after.1 && state_views(succs@)
                    == after.2
            },
        forall|e: &mut E, v: &VerifierEnv, s: &mut State| #[trigger]
            call_ensures(E::resolve_type_conflicts, (e, v, s), ()) ==> {
                let after = (b.adapt)(*e, env_content(*v), (*s)@);
                *final(e) == after.0 && (*final(s))@ == after.1
            },
        forall|e: &mut E, v: &VerifierEnv, s: State, r: State| #[trigger]
            call_ensures(E::prepare_for_cache, (e, v, s), r) ==> {
                let after = (b.prepare)(*e, env_content(*v), s@);
                *final(e) == after.0 && r@ == after.1
            },
        forall|e: &mut E, s: &mut State| #[trigger]
            call_ensures(E::begin_step, (e, s), ()) ==> {
                let after = (b.begin)(*e, (*s)@);
                *final(e) == after.0 && (*final(s))@ == after.1
            },
        forall|e: &mut E| #[trigger]
            call_ensures(E::end_step, (e,), ()) ==> *final(e) == (b.end_step)(*e),
        forall|e: &E, s: &mut State, shown: &Vec<u64>| #[trigger]
            call_ensures(E::apply_refinements, (e, s, shown), ()) ==> (*final(s))@ == (b.refine)(
                *e,
                (*s)@,
                shown@,
            ),
        run_call(e1, v1, prog, config, initial1, pruned1),
        run_call(e2, v2, prog, config, initial2, pruned2),
        *e1 == *e2,
        env_content(*v1) == env_content(*v2),
        initial1@ == initial2@,
    ensures
        pruned1 == pruned2,
        *final(e1) == *final(e2),
        env_content(*final(v1)) == env_content(*final(v2)),
{
    lemma_run_parts(e1, v1, prog, config, initial1, pruned1);
    lemma_run_parts(e2, v2, prog, config, initial2, pruned2);
    let (moments1, rounds1) = choose|moments: Seq<Moment<E>>, rounds: Seq<Round<E>>|
        {
            &&& #[trigger] rounds_taken(moments, rounds, prog, config)
            &&& forall|i: int|
                0 <= i < rounds.len() ==> {
                    &&& *final((#[trigger] rounds[i]).engine) == moments[i + 1].engine
                    &&& *final(rounds[i].env) == moments[i + 1].env
                    &&& (*final(rounds[i].work))@ == moments[i + 1].work
                    &&& *final(rounds[i].pruned) == moments[i + 1].pruned
                }
            &&& moments[0] == (Moment {
                engine: *e1,
                env: *v1,
                work: seq![initial1],
                pruned: 0,
            })
            &&& moments.last().engine == *final(e1)
            &&& moments.last().env == *final(v1)
            &&& moments.last().pruned == pruned1
            &&& rounds.len() > 0
            &&& !rounds.last().goes_on || moments.last().work.len() == 0
        };
    let (moments2, rounds2) = choose|moments: Seq<Moment<E>>, rounds: Seq<Round<E>>|
        {
            &&& #[trigger] rounds_taken(moments, rounds, prog, config)
            &&& forall|i: int|
                0 <= i < rounds.len() ==> {
                    &&& *final((#[trigger] rounds[i]).engine) == moments[i + 1].engine
                    &&& *final(rounds[i].env) == moments[i + 1].env
                    &&& (*final(rounds[i].work))@ == moments[i + 1].work
                    &&& *final(rounds[i].pruned) == moments[i + 1].pruned
                }
            &&& moments[0] == (Moment {
                engine: *e2,
                env: *v2,
                work: seq![initial2],
                pruned: 0,
            })
            &&& moments.last().engine == *final(e2)
            &&& moments.last().env == *final(v2)
            &&& moments.last().pruned == pruned2
            &&& rounds.len() > 0
            &&& !rounds.last().goes_on || moments.last().work.len() == 0
        };
    lemma_same_views(seq![initial1], seq![initial2]);
    lemma_round_at(moments1, rounds1, prog, config, 0);
    lemma_round_at(moments2, rounds2, prog, config, 0);
    if rounds1.len() < rounds2.len() {
        let n = rounds1.len() as int;
        lemma_same_moments(
            b,
            moments1,
            rounds1,
            moments2,
            rounds2,
            prog,
            config,
            rounds1.len(),
        );
        lemma_round_at(moments2, rounds2, prog, config, n - 1);
        lemma_round_at(moments2, rounds2, prog, config, n);
        lemma_views_read(moments1[n].work, moments2[n].work);
    } else if rounds2.len() < rounds1.len() {
        let n = rounds2.len() as int;
        lemma_same_moments(
            b,
            moments1,
            rounds1,
            moments2,
            rounds2,
            prog,
            config,
            rounds2.len(),
        );
        lemma_round_at(moments1, rounds1, prog, config, n - 1);
        lemma_round_at(moments1, rounds1, prog, config, n);
        lemma_views_read(moments1[n].work, moments2[n].work);
    } else {
        lemma_same_moments(
            b,
            moments1,
            rounds1,
            moments2,
            rounds2,
            prog,
            config,
            rounds1.len(),
        );
    }
}

}
