//! Two arrivals before an engine that is decided by what it is given: where they
//! start alike, they end alike.
//!
//! A predicate whose name ends in `_call` says of a function of the library what its
//! contract says. It is opaque, so that a proof opens one contract at a time.

use vstd::prelude::*;

use crate::ast::Program;
use crate::behaviour::{by_contents, Behaviour};
use crate::cache::{as_checkpoint, StateCache};
use crate::contents::{
    cache_content, entry_view_of, env_content, history_content, lemma_cache_read, lemma_env_read,
    lemma_same_cache, lemma_same_callsites, lemma_same_env, lemma_same_failure,
    lemma_same_with_cache, state_views,
};
use crate::engine::Engine;
use crate::env::{Breadcrumb, VerifierConfig, VerifierEnv};
use crate::machine::{State, VerificationError};
use crate::pruning::{callsites, should_prune};
use crate::same_scans::{lemma_same_gates, lemma_same_pruned};
use crate::worklist::{
    adapt_types, arrival_counted, arrived, at_jmp_point, becomes_checkpoint, checkpoint_arrival,
    decide_arrival, insn_limit, receive, spills_or_fills, take_checkpoint, Arrival,
};

verus! {

// ---------------------------------------------------------------------------
// Arrivals from the worklist
// ---------------------------------------------------------------------------

pub(crate) proof fn lemma_same_arrived(
    v1: VerifierEnv,
    v2: VerifierEnv,
    prog: Program,
    s1: State,
    s2: State,
)
    requires
        env_content(v1) == env_content(v2),
        s1@ == s2@,
    ensures
        arrived(v1, prog, s1)@ == arrived(v2, prog, s2)@,
{
    lemma_env_read(v1, v2);
    lemma_same_callsites(s1, s2);
    assert(s1@.pc == s2@.pc && s1@.regs == s2@.regs);
    assert(s1@.path_insn_count == s2@.path_insn_count);
    assert(s1@.jmp_history_cnt == s2@.jmp_history_cnt);
    if s1.frames@.len() > 0 {
        let k = s1.frames@.len() - 1;
        assert(s1.frames@[k]@ == s2.frames@[k]@);
        assert(s1.frames@[k]@.slots == s2.frames@[k]@.slots);
    }
    assert(at_jmp_point(v1, s1.pc) == at_jmp_point(v2, s2.pc));
    let instr = prog.spec_fetch(s1.pc);
    assert(spills_or_fills(s1, instr) == spills_or_fills(s2, instr));
}

pub(crate) proof fn lemma_same_taken(
    v1: &mut VerifierEnv,
    s1: &mut State,
    cached1: State,
    v2: &mut VerifierEnv,
    s2: &mut State,
    cached2: State,
    max: usize,
)
    requires
        call_ensures(take_checkpoint, (v1, s1, cached1, max), ()),
        call_ensures(take_checkpoint, (v2, s2, cached2, max), ()),
        env_content(*v1) == env_content(*v2),
        (*s1)@ == (*s2)@,
        cached1@ == cached2@,
    ensures
        env_content(*final(v1)) == env_content(*final(v2)),
        (*final(s1))@ == (*final(s2))@,
{
    let before1 = (*v1).cache@;
    let before2 = (*v2).cache@;
    let after1 = final(v1).cache@;
    let after2 = final(v2).cache@;
    let pc = (*s1).pc;
    assert((*s1)@.pc == (*s2)@.pc);
    lemma_env_read(*v1, *v2);
    lemma_cache_read(before1, before2);
    if before1.next_id < u32::MAX {
        let id = before1.next_id;
        let new1 = as_checkpoint(State { pc, ..cached1 }, id);
        let new2 = as_checkpoint(State { pc, ..cached2 }, id);
        assert(new1@ == new2@);
        let full1 = before1.bucket(pc).push(new1);
        let full2 = before2.bucket(pc).push(new2);
        let gone = if 0 < max < full1.len() {
            full1.len() - max
        } else {
            0
        };
        assert(before1.bucket(pc).len() == before2.bucket(pc).len());
        assert(full1.len() == full2.len());
        assert(state_views(full1.skip(gone)) =~= state_views(full2.skip(gone))) by {
            assert forall|i: int| 0 <= i < full1.skip(gone).len() implies #[trigger] full1.skip(
                gone,
            )[i]@ == full2.skip(gone)[i]@ by {
                if i + gone < before1.bucket(pc).len() {
                    assert(before1.bucket(pc)[i + gone]@ == before2.bucket(pc)[i + gone]@);
                }
            }
        }
        assert forall|q: usize| #[trigger] state_views(after1.bucket(q)) == state_views(
            after2.bucket(q),
        ) by {
            if q != pc {
                assert(after1.bucket(q) == before1.bucket(q));
                assert(after2.bucket(q) == before2.bucket(q));
                assert(state_views(before1.bucket(q)) == state_views(before2.bucket(q)));
            }
        }
        assert forall|q: usize| #[trigger] after1.scores(q) == after2.scores(q) by {
            assert(before1.scores(q) == before2.scores(q));
            if q != pc {
                assert(after2.scores(q) == before2.scores(q));
            }
        }
        assert forall|n: u32| #[trigger] entry_view_of(after1.resolve(n)) == entry_view_of(
            after2.resolve(n),
        ) by {
            assert(entry_view_of(before1.resolve(n)) == entry_view_of(before2.resolve(n)));
            assert(after1.resolve(n) == if n == id {
                Some((pc, new1))
            } else {
                before1.resolve(n)
            });
            assert(after2.resolve(n) == if n == id {
                Some((pc, new2))
            } else {
                before2.resolve(n)
            });
        }
        lemma_same_cache(after1, after2);
        assert((*s1)@.path_jmp_count == (*s2)@.path_jmp_count);
        assert((*s1)@.path_insn_count == (*s2)@.path_insn_count);
    }
    lemma_same_env(*final(v1), *final(v2));
}

pub(crate) proof fn lemma_same_checkpointed<E: Engine>(
    b: Behaviour<E>,
    e1: &mut E,
    v1: &mut VerifierEnv,
    s1: &mut State,
    e2: &mut E,
    v2: &mut VerifierEnv,
    s2: &mut State,
    config: VerifierConfig,
)
    requires
        by_contents(b),
        forall|e: &mut E, v: &VerifierEnv, s: State, r: State| #[trigger]
            call_ensures(E::prepare_for_cache, (e, v, s), r) ==> {
                let after = (b.prepare)(*e, env_content(*v), s@);
                *final(e) == after.0 && r@ == after.1
            },
        checkpoint_call(e1, v1, s1, config),
        checkpoint_call(e2, v2, s2, config),
        *e1 == *e2,
        env_content(*v1) == env_content(*v2),
        (*s1)@ == (*s2)@,
    ensures
        *final(e1) == *final(e2),
        env_content(*final(v1)) == env_content(*final(v2)),
        (*final(s1))@ == (*final(s2))@,
{
    reveal(checkpoint_call);
    let sparse = config.kernel_engine || (*v1).bcf_enabled;
    lemma_env_read(*v1, *v2);
    lemma_same_gates(*v1, *v2, *s1, *s2);
    let point1 = choose|at_prune_point: bool|
        {
            &&& #[trigger] call_ensures(
                E::is_prune_point,
                (&*e1, &*v1, (*s1).pc),
                at_prune_point,
            )
            &&& if becomes_checkpoint(
                *v1,
                *s1,
                config.kernel_engine || (*v1).bcf_enabled,
                at_prune_point,
            ) {
                exists|e: &mut E, copy: State, cached: State, v: &mut VerifierEnv, s: &mut State|
                    {
                        &&& #[trigger] call_ensures(
                            E::prepare_for_cache,
                            (e, &*v1, copy),
                            cached,
                        )
                        &&& copy@ == (*s1)@
                        &&& *e == *e1
                        &&& *final(e1) == *final(e)
                        &&& #[trigger] call_ensures(
                            take_checkpoint,
                            (v, s, cached, config.max_states_per_pc),
                            (),
                        )
                        &&& *v == *v1
                        &&& *s == *s1
                        &&& *final(v1) == *final(v)
                        &&& *final(s1) == *final(s)
                    }
            } else {
                &&& *final(e1) == *e1
                &&& *final(v1) == *v1
                &&& *final(s1) == *s1
            }
        };
    let point2 = choose|at_prune_point: bool|
        {
            &&& #[trigger] call_ensures(
                E::is_prune_point,
                (&*e2, &*v2, (*s2).pc),
                at_prune_point,
            )
            &&& if becomes_checkpoint(
                *v2,
                *s2,
                config.kernel_engine || (*v2).bcf_enabled,
                at_prune_point,
            ) {
                exists|e: &mut E, copy: State, cached: State, v: &mut VerifierEnv, s: &mut State|
                    {
                        &&& #[trigger] call_ensures(
                            E::prepare_for_cache,
                            (e, &*v2, copy),
                            cached,
                        )
                        &&& copy@ == (*s2)@
                        &&& *e == *e2
                        &&& *final(e2) == *final(e)
                        &&& #[trigger] call_ensures(
                            take_checkpoint,
                            (v, s, cached, config.max_states_per_pc),
                            (),
                        )
                        &&& *v == *v2
                        &&& *s == *s2
                        &&& *final(v2) == *final(v)
                        &&& *final(s2) == *final(s)
                    }
            } else {
                &&& *final(e2) == *e2
                &&& *final(v2) == *v2
                &&& *final(s2) == *s2
            }
        };
    assert(point1 == point2) by {
        reveal(by_contents);
    }
    assert(becomes_checkpoint(*v1, *s1, sparse, point1) == becomes_checkpoint(
        *v2,
        *s2,
        sparse,
        point1,
    ));
    if becomes_checkpoint(*v1, *s1, sparse, point1) {
        let (x1, copy1, cached1, w1, t1) = choose|
            e: &mut E,
            copy: State,
            cached: State,
            v: &mut VerifierEnv,
            s: &mut State,
        |
            {
                &&& #[trigger] call_ensures(E::prepare_for_cache, (e, &*v1, copy), cached)
                &&& copy@ == (*s1)@
                &&& *e == *e1
                &&& *final(e1) == *final(e)
                &&& #[trigger] call_ensures(
                    take_checkpoint,
                    (v, s, cached, config.max_states_per_pc),
                    (),
                )
                &&& *v == *v1
                &&& *s == *s1
                &&& *final(v1) == *final(v)
                &&& *final(s1) == *final(s)
            };
        let (x2, copy2, cached2, w2, t2) = choose|
            e: &mut E,
            copy: State,
            cached: State,
            v: &mut VerifierEnv,
            s: &mut State,
        |
            {
                &&& #[trigger] call_ensures(E::prepare_for_cache, (e, &*v2, copy), cached)
                &&& copy@ == (*s2)@
                &&& *e == *e2
                &&& *final(e2) == *final(e)
                &&& #[trigger] call_ensures(
                    take_checkpoint,
                    (v, s, cached, config.max_states_per_pc),
                    (),
                )
                &&& *v == *v2
                &&& *s == *s2
                &&& *final(v2) == *final(v)
                &&& *final(s2) == *final(s)
            };
        lemma_same_taken(w1, t1, cached1, w2, t2, cached2, config.max_states_per_pc);
    }
}

pub(crate) proof fn lemma_same_adapted<E: Engine>(
    b: Behaviour<E>,
    e1: &mut E,
    v1: VerifierEnv,
    s1: &mut State,
    e2: &mut E,
    v2: VerifierEnv,
    s2: &mut State,
    prog: Program,
)
    requires
        by_contents(b),
        forall|e: &mut E, v: &VerifierEnv, s: &mut State| #[trigger]
            call_ensures(E::resolve_type_conflicts, (e, v, s), ()) ==> {
                let after = (b.adapt)(*e, env_content(*v), (*s)@);
                *final(e) == after.0 && (*final(s))@ == after.1
            },
        adapt_call(e1, v1, s1, prog),
        adapt_call(e2, v2, s2, prog),
        *e1 == *e2,
        env_content(v1) == env_content(v2),
        (*s1)@ == (*s2)@,
    ensures
        *final(e1) == *final(e2),
        (*final(s1))@ == (*final(s2))@,
{
    reveal(adapt_call);
    lemma_env_read(v1, v2);
    assert((*s1)@.pc == (*s2)@.pc);
    if !v1.kernel_faithful_alu && (*s1).pc + 1 < prog.instrs@.len() {
        let (x1, t1) = choose|e: &mut E, s: &mut State|
            {
                &&& #[trigger] call_ensures(E::resolve_type_conflicts, (e, &v1, s), ())
                &&& *e == *e1
                &&& *s == *s1
                &&& *final(e1) == *final(e)
                &&& *final(s1) == (State { pc: (*s1).pc, ..*final(s) })
            };
        let (x2, t2) = choose|e: &mut E, s: &mut State|
            {
                &&& #[trigger] call_ensures(E::resolve_type_conflicts, (e, &v2, s), ())
                &&& *e == *e2
                &&& *s == *s2
                &&& *final(e2) == *final(e)
                &&& *final(s2) == (State { pc: (*s2).pc, ..*final(s) })
            };
        assert((*final(t1))@ == (*final(t2))@);
    }
}

pub(crate) proof fn lemma_same_counted(v1: VerifierEnv, v2: VerifierEnv, config: VerifierConfig)
    requires
        env_content(v1) == env_content(v2),
    ensures
        env_content(arrival_counted(v1)) == env_content(arrival_counted(v2)),
        insn_limit(v1, config) == insn_limit(v2, config),
{
    lemma_env_read(v1, v2);
    lemma_same_env(arrival_counted(v1), arrival_counted(v2));
}

/// Whether a call of `should_prune` may end so.
#[verifier::opaque]
pub open spec fn prune_call<E: Engine>(
    e: &mut E,
    v: &mut VerifierEnv,
    s: State,
    prog: Program,
    r: bool,
) -> bool {
    call_ensures(should_prune::<E>, (e, v, &s, &prog), r)
}

/// Whether a call of `checkpoint_arrival` may end so.
#[verifier::opaque]
pub open spec fn checkpoint_call<E: Engine>(
    e: &mut E,
    v: &mut VerifierEnv,
    s: &mut State,
    config: VerifierConfig,
) -> bool {
    call_ensures(checkpoint_arrival::<E>, (e, v, s, &config), ())
}

/// Whether a call of `adapt_types` may end so.
#[verifier::opaque]
pub open spec fn adapt_call<E: Engine>(
    e: &mut E,
    v: VerifierEnv,
    s: &mut State,
    prog: Program,
) -> bool {
    call_ensures(adapt_types::<E>, (e, &v, s, &prog), ())
}

/// Whether a call of `decide_arrival` may end so.
#[verifier::opaque]
pub open spec fn arrival_call<E: Engine>(
    e: &mut E,
    v: &mut VerifierEnv,
    prog: Program,
    config: VerifierConfig,
    s: &mut State,
    r: Arrival,
) -> bool {
    call_ensures(decide_arrival::<E>, (e, v, &prog, &config, s), r)
}

/// Whether a call of `receive` may end so.
#[verifier::opaque]
pub open spec fn receive_call<E: Engine>(
    e: &mut E,
    v: &mut VerifierEnv,
    prog: Program,
    config: VerifierConfig,
    s: &mut State,
    r: Arrival,
) -> bool {
    call_ensures(receive::<E>, (e, v, &prog, &config, s), r)
}

pub(crate) proof fn lemma_same_prune_calls<E: Engine>(
    b: Behaviour<E>,
    e1: &mut E,
    v1: &mut VerifierEnv,
    e2: &mut E,
    v2: &mut VerifierEnv,
    s1: State,
    s2: State,
    prog: Program,
    pruned1: bool,
    pruned2: bool,
)
    requires
        by_contents(b),
        forall|e: &mut E, c: &mut StateCache, id: u32| #[trigger]
            call_ensures(E::clean, (e, c, id), ()) ==> {
                let after = (b.clean)(*e, cache_content((*c)@), id);
                *final(e) == after.0 && cache_content((*final(c))@) == after.1
            },
        forall|e: &mut E, c: &mut StateCache, h: &Vec<Breadcrumb>, s: &State, k: &State| #[trigger]
            call_ensures(E::propagate_precision, (e, c, h, s, k), ()) ==> {
                let after = (b.precision)(
                    *e,
                    cache_content((*c)@),
                    history_content(h@),
                    s@,
                    k@,
                );
                *final(e) == after.0 && cache_content((*final(c))@) == after.1
            },
        forall|e: &mut E, c: &mut StateCache, s: &State, id: u32, pc: usize| #[trigger]
            call_ensures(E::add_backedge, (e, c, s, id, pc), ()) ==> {
                let after = (b.backedge)(*e, cache_content((*c)@), s@, id, pc);
                *final(e) == after.0 && cache_content((*final(c))@) == after.1
            },
        prune_call(e1, v1, s1, prog, pruned1),
        prune_call(e2, v2, s2, prog, pruned2),
        *e1 == *e2,
        env_content(*v1) == env_content(*v2),
        s1@ == s2@,
    ensures
        pruned1 == pruned2,
        *final(e1) == *final(e2),
        env_content(*final(v1)) == env_content(*final(v2)),
{
    reveal(prune_call);
    lemma_same_pruned(b, e1, v1, e2, v2, s1, s2, prog, pruned1, pruned2);
}

pub(crate) proof fn lemma_arrival_parts<E: Engine>(
    e: &mut E,
    v: &mut VerifierEnv,
    prog: Program,
    config: VerifierConfig,
    s: &mut State,
    r: Arrival,
)
    requires
        arrival_call(e, v, prog, config, s, r),
    ensures
        exists|x: &mut E, w: &mut VerifierEnv, pruned: bool|
            {
                &&& #[trigger] prune_call(x, w, *old(s), prog, pruned)
                &&& *x == *old(e)
                &&& *w == arrival_counted(*old(v))
                &&& if pruned {
                    exists|y: &mut E, c: &mut StateCache, sites: Vec<usize>|
                        {
                            &&& #[trigger] call_ensures(
                                E::end_path,
                                (y, c, &sites, (*old(s)).parent_cache_id),
                                (),
                            )
                            &&& sites@ == callsites(*old(s))
                            &&& *y == *final(x)
                            &&& *c == final(w).cache
                            &&& *final(e) == *final(y)
                            &&& *final(v) == (VerifierEnv { cache: *final(c), ..*final(w) })
                            &&& *final(s) == *old(s)
                            &&& r == Arrival::Pruned
                        }
                } else {
                    exists|y: &mut E, z: &mut VerifierEnv, t: &mut State|
                        {
                            &&& #[trigger] checkpoint_call(y, z, t, config)
                            &&& *y == *final(x)
                            &&& *z == *final(w)
                            &&& *t == *old(s)
                            &&& *final(e) == *final(y)
                            &&& *final(s) == *final(t)
                            &&& if final(z).counters.insn_processed > insn_limit(*old(v), config) {
                                &&& r == Arrival::Stop
                                &&& *final(v) == (VerifierEnv {
                                    error: Some(
                                        VerificationError::ComplexityLimitExceeded {
                                            limit: insn_limit(*old(v), config),
                                        },
                                    ),
                                    ..*final(z)
                                })
                            } else {
                                r == Arrival::Explore && *final(v) == *final(z)
                            }
                        }
                }
            },
{
    reveal(arrival_call);
    reveal(prune_call);
    let (x, w, pruned) = choose|x: &mut E, w: &mut VerifierEnv, pruned: bool|
        {
            &&& #[trigger] call_ensures(should_prune::<E>, (x, w, &*s, &prog), pruned)
            &&& *x == *e
            &&& *w == arrival_counted(*v)
            &&& if pruned {
                exists|y: &mut E, c: &mut StateCache, sites: Vec<usize>|
                    {
                        &&& #[trigger] call_ensures(
                            E::end_path,
                            (y, c, &sites, (*s).parent_cache_id),
                            (),
                        )
                        &&& sites@ == callsites(*s)
                        &&& *y == *final(x)
                        &&& *c == final(w).cache
                        &&& *final(e) == *final(y)
                        &&& *final(v) == (VerifierEnv { cache: *final(c), ..*final(w) })
                        &&& *final(s) == *s
                        &&& r == Arrival::Pruned
                    }
            } else {
                exists|y: &mut E, z: &mut VerifierEnv, t: &mut State|
                    {
                        &&& #[trigger] call_ensures(checkpoint_arrival::<E>, (y, z, t, &config), ())
                        &&& *y == *final(x)
                        &&& *z == *final(w)
                        &&& *t == *s
                        &&& *final(e) == *final(y)
                        &&& *final(s) == *final(t)
                        &&& if final(z).counters.insn_processed > insn_limit(*v, config) {
                            &&& r == Arrival::Stop
                            &&& *final(v) == (VerifierEnv {
                                error: Some(
                                    VerificationError::ComplexityLimitExceeded {
                                        limit: insn_limit(*v, config),
                                    },
                                ),
                                ..*final(z)
                            })
                        } else {
                            r == Arrival::Explore && *final(v) == *final(z)
                        }
                    }
            }
        };
    assert(prune_call(x, w, *s, prog, pruned));
    if !pruned {
        reveal(checkpoint_call);
        let (y, z, t) = choose|y: &mut E, z: &mut VerifierEnv, t: &mut State|
            {
                &&& #[trigger] call_ensures(checkpoint_arrival::<E>, (y, z, t, &config), ())
                &&& *y == *final(x)
                &&& *z == *final(w)
                &&& *t == *s
                &&& *final(e) == *final(y)
                &&& *final(s) == *final(t)
                &&& if final(z).counters.insn_processed > insn_limit(*v, config) {
                    &&& r == Arrival::Stop
                    &&& *final(v) == (VerifierEnv {
                        error: Some(
                            VerificationError::ComplexityLimitExceeded {
                                limit: insn_limit(*v, config),
                            },
                        ),
                        ..*final(z)
                    })
                } else {
                    r == Arrival::Explore && *final(v) == *final(z)
                }
            };
        assert(checkpoint_call(y, z, t, config));
    }
}

pub(crate) proof fn lemma_same_ended<E: Engine>(
    b: Behaviour<E>,
    e1: &mut E,
    v1: &mut VerifierEnv,
    s1: &mut State,
    e2: &mut E,
    v2: &mut VerifierEnv,
    s2: &mut State,
    prog: Program,
    config: VerifierConfig,
    r1: Arrival,
    r2: Arrival,
)
    requires
        by_contents(b),
        forall|e: &mut E, c: &mut StateCache, id: u32| #[trigger]
            call_ensures(E::clean, (e, c, id), ()) ==> {
                let after = (b.clean)(*e, cache_content((*c)@), id);
                *final(e) == after.0 && cache_content((*final(c))@) == after.1
            },
        forall|e: &mut E, c: &mut StateCache, h: &Vec<Breadcrumb>, s: &State, k: &State| #[trigger]
            call_ensures(E::propagate_precision, (e, c, h, s, k), ()) ==> {
                let after = (b.precision)(
                    *e,
                    cache_content((*c)@),
                    history_content(h@),
                    s@,
                    k@,
                );
                *final(e) == after.0 && cache_content((*final(c))@) == after.1
            },
        forall|e: &mut E, c: &mut StateCache, s: &State, id: u32, pc: usize| #[trigger]
            call_ensures(E::add_backedge, (e, c, s, id, pc), ()) ==> {
                let after = (b.backedge)(*e, cache_content((*c)@), s@, id, pc);
                *final(e) == after.0 && cache_content((*final(c))@) == after.1
            },
        forall|e: &mut E, c: &mut StateCache, sites: &Vec<usize>, parent: Option<u32>| #[trigger]
            call_ensures(E::end_path, (e, c, sites, parent), ()) ==> {
                let after = (b.end_path)(*e, cache_content((*c)@), sites@, parent);
                *final(e) == after.0 && cache_content((*final(c))@) == after.1
            },
        arrival_call(e1, v1, prog, config, s1, r1),
        arrival_call(e2, v2, prog, config, s2, r2),
        *e1 == *e2,
        env_content(*v1) == env_content(*v2),
        (*s1)@ == (*s2)@,
    ensures
        r1 == Arrival::Pruned <==> r2 == Arrival::Pruned,
        r1 == Arrival::Pruned ==> {
            &&& *final(e1) == *final(e2)
            &&& env_content(*final(v1)) == env_content(*final(v2))
            &&& (*final(s1))@ == (*final(s2))@
        },
{
    lemma_arrival_parts(e1, v1, prog, config, s1, r1);
    lemma_arrival_parts(e2, v2, prog, config, s2, r2);
    let (x1, w1, pruned1) = choose|x: &mut E, w: &mut VerifierEnv, pruned: bool|
        {
            &&& #[trigger] prune_call(x, w, *s1, prog, pruned)
            &&& *x == *e1
            &&& *w == arrival_counted(*v1)
            &&& if pruned {
                exists|y: &mut E, c: &mut StateCache, sites: Vec<usize>|
                    {
                        &&& #[trigger] call_ensures(
                            E::end_path,
                            (y, c, &sites, (*s1).parent_cache_id),
                            (),
                        )
                        &&& sites@ == callsites(*s1)
                        &&& *y == *final(x)
                        &&& *c == final(w).cache
                        &&& *final(e1) == *final(y)
                        &&& *final(v1) == (VerifierEnv { cache: *final(c), ..*final(w) })
                        &&& *final(s1) == *s1
                        &&& r1 == Arrival::Pruned
                    }
            } else {
                exists|y: &mut E, z: &mut VerifierEnv, t: &mut State|
                    {
                        &&& #[trigger] checkpoint_call(y, z, t, config)
                        &&& *y == *final(x)
                        &&& *z == *final(w)
                        &&& *t == *s1
                        &&& *final(e1) == *final(y)
                        &&& *final(s1) == *final(t)
                        &&& if final(z).counters.insn_processed > insn_limit(*v1, config) {
                            &&& r1 == Arrival::Stop
                            &&& *final(v1) == (VerifierEnv {
                                error: Some(
                                    VerificationError::ComplexityLimitExceeded {
                                        limit: insn_limit(*v1, config),
                                    },
                                ),
                                ..*final(z)
                            })
                        } else {
                            r1 == Arrival::Explore && *final(v1) == *final(z)
                        }
                    }
            }
        };
    let (x2, w2, pruned2) = choose|x: &mut E, w: &mut VerifierEnv, pruned: bool|
        {
            &&& #[trigger] prune_call(x, w, *s2, prog, pruned)
            &&& *x == *e2
            &&& *w == arrival_counted(*v2)
            &&& if pruned {
                exists|y: &mut E, c: &mut StateCache, sites: Vec<usize>|
                    {
                        &&& #[trigger] call_ensures(
                            E::end_path,
                            (y, c, &sites, (*s2).parent_cache_id),
                            (),
                        )
                        &&& sites@ == callsites(*s2)
                        &&& *y == *final(x)
                        &&& *c == final(w).cache
                        &&& *final(e2) == *final(y)
                        &&& *final(v2) == (VerifierEnv { cache: *final(c), ..*final(w) })
                        &&& *final(s2) == *s2
                        &&& r2 == Arrival::Pruned
                    }
            } else {
                exists|y: &mut E, z: &mut VerifierEnv, t: &mut State|
                    {
                        &&& #[trigger] checkpoint_call(y, z, t, config)
                        &&& *y == *final(x)
                        &&& *z == *final(w)
                        &&& *t == *s2
                        &&& *final(e2) == *final(y)
                        &&& *final(s2) == *final(t)
                        &&& if final(z).counters.insn_processed > insn_limit(*v2, config) {
                            &&& r2 == Arrival::Stop
                            &&& *final(v2) == (VerifierEnv {
                                error: Some(
                                    VerificationError::ComplexityLimitExceeded {
                                        limit: insn_limit(*v2, config),
                                    },
                                ),
                                ..*final(z)
                            })
                        } else {
                            r2 == Arrival::Explore && *final(v2) == *final(z)
                        }
                    }
            }
        };
    lemma_same_counted(*v1, *v2, config);
    lemma_same_prune_calls(b, x1, w1, x2, w2, *s1, *s2, prog, pruned1, pruned2);
    if pruned1 {
        lemma_same_callsites(*s1, *s2);
        assert((*s1)@.parent_cache_id == (*s2)@.parent_cache_id);
        let (y1, c1, sites1) = choose|y: &mut E, c: &mut StateCache, sites: Vec<usize>|
            {
                &&& #[trigger] call_ensures(E::end_path, (y, c, &sites, (*s1).parent_cache_id), ())
                &&& sites@ == callsites(*s1)
                &&& *y == *final(x1)
                &&& *c == final(w1).cache
                &&& *final(e1) == *final(y)
                &&& *final(v1) == (VerifierEnv { cache: *final(c), ..*final(w1) })
                &&& *final(s1) == *s1
                &&& r1 == Arrival::Pruned
            };
        let (y2, c2, sites2) = choose|y: &mut E, c: &mut StateCache, sites: Vec<usize>|
            {
                &&& #[trigger] call_ensures(E::end_path, (y, c, &sites, (*s2).parent_cache_id), ())
                &&& sites@ == callsites(*s2)
                &&& *y == *final(x2)
                &&& *c == final(w2).cache
                &&& *final(e2) == *final(y)
                &&& *final(v2) == (VerifierEnv { cache: *final(c), ..*final(w2) })
                &&& *final(s2) == *s2
                &&& r2 == Arrival::Pruned
            };
        lemma_env_read(*final(w1), *final(w2));
        lemma_same_with_cache(*final(w1), *final(w2), *final(c1), *final(c2));
    }
}

pub(crate) proof fn lemma_same_kept<E: Engine>(
    b: Behaviour<E>,
    e1: &mut E,
    v1: &mut VerifierEnv,
    s1: &mut State,
    e2: &mut E,
    v2: &mut VerifierEnv,
    s2: &mut State,
    prog: Program,
    config: VerifierConfig,
    r1: Arrival,
    r2: Arrival,
)
    requires
        by_contents(b),
        forall|e: &mut E, c: &mut StateCache, id: u32| #[trigger]
            call_ensures(E::clean, (e, c, id), ()) ==> {
                let after = (b.clean)(*e, cache_content((*c)@), id);
                *final(e) == after.0 && cache_content((*final(c))@) == after.1
            },
        forall|e: &mut E, c: &mut StateCache, h: &Vec<Breadcrumb>, s: &State, k: &State| #[trigger]
            call_ensures(E::propagate_precision, (e, c, h, s, k), ()) ==> {
                let after = (b.precision)(
                    *e,
                    cache_content((*c)@),
                    history_content(h@),
                    s@,
                    k@,
                );
                *final(e) == after.0 && cache_content((*final(c))@) == after.1
            },
        forall|e: &mut E, c: &mut StateCache, s: &State, id: u32, pc: usize| #[trigger]
            call_ensures(E::add_backedge, (e, c, s, id, pc), ()) ==> {
                let after = (b.backedge)(*e, cache_content((*c)@), s@, id, pc);
                *final(e) == after.0 && cache_content((*final(c))@) == after.1
            },
        forall|e: &mut E, v: &VerifierEnv, s: State, r: State| #[trigger]
            call_ensures(E::prepare_for_cache, (e, v, s), r) ==> {
                let after = (b.prepare)(*e, env_content(*v), s@);
                *final(e) == after.0 && r@ == after.1
            },
        arrival_call(e1, v1, prog, config, s1, r1),
        arrival_call(e2, v2, prog, config, s2, r2),
        *e1 == *e2,
        env_content(*v1) == env_content(*v2),
        (*s1)@ == (*s2)@,
        r1 != Arrival::Pruned,
        r2 != Arrival::Pruned,
    ensures
        r1 == r2,
        *final(e1) == *final(e2),
        env_content(*final(v1)) == env_content(*final(v2)),
        (*final(s1))@ == (*final(s2))@,
{
    lemma_arrival_parts(e1, v1, prog, config, s1, r1);
    lemma_arrival_parts(e2, v2, prog, config, s2, r2);
    let (x1, w1, pruned1) = choose|x: &mut E, w: &mut VerifierEnv, pruned: bool|
        {
            &&& #[trigger] prune_call(x, w, *s1, prog, pruned)
            &&& *x == *e1
            &&& *w == arrival_counted(*v1)
            &&& if pruned {
                exists|y: &mut E, c: &mut StateCache, sites: Vec<usize>|
                    {
                        &&& #[trigger] call_ensures(
                            E::end_path,
                            (y, c, &sites, (*s1).parent_cache_id),
                            (),
                        )
                        &&& sites@ == callsites(*s1)
                        &&& *y == *final(x)
                        &&& *c == final(w).cache
                        &&& *final(e1) == *final(y)
                        &&& *final(v1) == (VerifierEnv { cache: *final(c), ..*final(w) })
                        &&& *final(s1) == *s1
                        &&& r1 == Arrival::Pruned
                    }
            } else {
                exists|y: &mut E, z: &mut VerifierEnv, t: &mut State|
                    {
                        &&& #[trigger] checkpoint_call(y, z, t, config)
                        &&& *y == *final(x)
                        &&& *z == *final(w)
                        &&& *t == *s1
                        &&& *final(e1) == *final(y)
                        &&& *final(s1) == *final(t)
                        &&& if final(z).counters.insn_processed > insn_limit(*v1, config) {
                            &&& r1 == Arrival::Stop
                            &&& *final(v1) == (VerifierEnv {
                                error: Some(
                                    VerificationError::ComplexityLimitExceeded {
                                        limit: insn_limit(*v1, config),
                                    },
                                ),
                                ..*final(z)
                            })
                        } else {
                            r1 == Arrival::Explore && *final(v1) == *final(z)
                        }
                    }
            }
        };
    let (x2, w2, pruned2) = choose|x: &mut E, w: &mut VerifierEnv, pruned: bool|
        {
            &&& #[trigger] prune_call(x, w, *s2, prog, pruned)
            &&& *x == *e2
            &&& *w == arrival_counted(*v2)
            &&& if pruned {
                exists|y: &mut E, c: &mut StateCache, sites: Vec<usize>|
                    {
                        &&& #[trigger] call_ensures(
                            E::end_path,
                            (y, c, &sites, (*s2).parent_cache_id),
                            (),
                        )
                        &&& sites@ == callsites(*s2)
                        &&& *y == *final(x)
                        &&& *c == final(w).cache
                        &&& *final(e2) == *final(y)
                        &&& *final(v2) == (VerifierEnv { cache: *final(c), ..*final(w) })
                        &&& *final(s2) == *s2
                        &&& r2 == Arrival::Pruned
                    }
            } else {
                exists|y: &mut E, z: &mut VerifierEnv, t: &mut State|
                    {
                        &&& #[trigger] checkpoint_call(y, z, t, config)
                        &&& *y == *final(x)
                        &&& *z == *final(w)
                        &&& *t == *s2
                        &&& *final(e2) == *final(y)
                        &&& *final(s2) == *final(t)
                        &&& if final(z).counters.insn_processed > insn_limit(*v2, config) {
                            &&& r2 == Arrival::Stop
                            &&& *final(v2) == (VerifierEnv {
                                error: Some(
                                    VerificationError::ComplexityLimitExceeded {
                                        limit: insn_limit(*v2, config),
                                    },
                                ),
                                ..*final(z)
                            })
                        } else {
                            r2 == Arrival::Explore && *final(v2) == *final(z)
                        }
                    }
            }
        };
    lemma_same_counted(*v1, *v2, config);
    lemma_same_prune_calls(b, x1, w1, x2, w2, *s1, *s2, prog, pruned1, pruned2);
    let (y1, z1, t1) = choose|y: &mut E, z: &mut VerifierEnv, t: &mut State|
        {
            &&& #[trigger] checkpoint_call(y, z, t, config)
            &&& *y == *final(x1)
            &&& *z == *final(w1)
            &&& *t == *s1
            &&& *final(e1) == *final(y)
            &&& *final(s1) == *final(t)
            &&& if final(z).counters.insn_processed > insn_limit(*v1, config) {
                &&& r1 == Arrival::Stop
                &&& *final(v1) == (VerifierEnv {
                    error: Some(
                        VerificationError::ComplexityLimitExceeded {
                            limit: insn_limit(*v1, config),
                        },
                    ),
                    ..*final(z)
                })
            } else {
                r1 == Arrival::Explore && *final(v1) == *final(z)
            }
        };
    let (y2, z2, t2) = choose|y: &mut E, z: &mut VerifierEnv, t: &mut State|
        {
            &&& #[trigger] checkpoint_call(y, z, t, config)
            &&& *y == *final(x2)
            &&& *z == *final(w2)
            &&& *t == *s2
            &&& *final(e2) == *final(y)
            &&& *final(s2) == *final(t)
            &&& if final(z).counters.insn_processed > insn_limit(*v2, config) {
                &&& r2 == Arrival::Stop
                &&& *final(v2) == (VerifierEnv {
                    error: Some(
                        VerificationError::ComplexityLimitExceeded {
                            limit: insn_limit(*v2, config),
                        },
                    ),
                    ..*final(z)
                })
            } else {
                r2 == Arrival::Explore && *final(v2) == *final(z)
            }
        };
    lemma_same_checkpointed(b, y1, z1, t1, y2, z2, t2, config);
    lemma_env_read(*final(z1), *final(z2));
    lemma_same_failure(*final(z1), *final(z2), final(v1).error);
}

pub(crate) proof fn lemma_same_arrival<E: Engine>(
    b: Behaviour<E>,
    e1: &mut E,
    v1: &mut VerifierEnv,
    s1: &mut State,
    e2: &mut E,
    v2: &mut VerifierEnv,
    s2: &mut State,
    prog: Program,
    config: VerifierConfig,
    r1: Arrival,
    r2: Arrival,
)
    requires
        by_contents(b),
        forall|e: &mut E, c: &mut StateCache, id: u32| #[trigger]
            call_ensures(E::clean, (e, c, id), ()) ==> {
                let after = (b.clean)(*e, cache_content((*c)@), id);
                *final(e) == after.0 && cache_content((*final(c))@) == after.1
            },
        forall|e: &mut E, c: &mut StateCache, h: &Vec<Breadcrumb>, s: &State, k: &State| #[trigger]
            call_ensures(E::propagate_precision, (e, c, h, s, k), ()) ==> {
                let after = (b.precision)(
                    *e,
                    cache_content((*c)@),
                    history_content(h@),
                    s@,
                    k@,
                );
                *final(e) == after.0 && cache_content((*final(c))@) == after.1
            },
        forall|e: &mut E, c: &mut StateCache, s: &State, id: u32, pc: usize| #[trigger]
            call_ensures(E::add_backedge, (e, c, s, id, pc), ()) ==> {
                let after = (b.backedge)(*e, cache_content((*c)@), s@, id, pc);
                *final(e) == after.0 && cache_content((*final(c))@) == after.1
            },
        forall|e: &mut E, c: &mut StateCache, sites: &Vec<usize>, parent: Option<u32>| #[trigger]
            call_ensures(E::end_path, (e, c, sites, parent), ()) ==> {
                let after = (b.end_path)(*e, cache_content((*c)@), sites@, parent);
                *final(e) == after.0 && cache_content((*final(c))@) == after.1
            },
        forall|e: &mut E, v: &VerifierEnv, s: State, r: State| #[trigger]
            call_ensures(E::prepare_for_cache, (e, v, s), r) ==> {
                let after = (b.prepare)(*e, env_content(*v), s@);
                *final(e) == after.0 && r@ == after.1
            },
        arrival_call(e1, v1, prog, config, s1, r1),
        arrival_call(e2, v2, prog, config, s2, r2),
        *e1 == *e2,
        env_content(*v1) == env_content(*v2),
        (*s1)@ == (*s2)@,
    ensures
        r1 == r2,
        *final(e1) == *final(e2),
        env_content(*final(v1)) == env_content(*final(v2)),
        (*final(s1))@ == (*final(s2))@,
{
    lemma_same_ended(b, e1, v1, s1, e2, v2, s2, prog, config, r1, r2);
    if r1 != Arrival::Pruned {
        lemma_same_kept(b, e1, v1, s1, e2, v2, s2, prog, config, r1, r2);
    }
}

pub(crate) proof fn lemma_receive_parts<E: Engine>(
    e: &mut E,
    v: &mut VerifierEnv,
    prog: Program,
    config: VerifierConfig,
    s: &mut State,
    r: Arrival,
)
    requires
        receive_call(e, v, prog, config, s, r),
    ensures
        (*old(v)).error is Some ==> {
            &&& r == Arrival::Stop
            &&& *final(e) == *old(e)
            &&& *final(v) == (VerifierEnv { bcf_path_unreachable: false, ..*old(v) })
        },
        (*old(v)).error is None && prog.invalid_pcs@.contains((*old(s)).pc) ==> {
            &&& r == Arrival::Stop
            &&& *final(e) == *old(e)
            &&& *final(v) == (VerifierEnv {
                bcf_path_unreachable: false,
                error: Some(VerificationError::InvalidBPFLoadImmInsn { pc: (*old(s)).pc }),
                ..*old(v)
            })
        },
        (*old(v)).error is None && !prog.invalid_pcs@.contains((*old(s)).pc) ==> exists|
            x: &mut E,
            fresh: VerifierEnv,
            t: &mut State,
        |
            {
                &&& #[trigger] adapt_call(x, fresh, t, prog)
                &&& fresh == (VerifierEnv { bcf_path_unreachable: false, ..*old(v) })
                &&& *x == *old(e)
                &&& *t == arrived(*old(v), prog, *old(s))
                &&& if (*old(v)).counters.insn_processed == usize::MAX {
                    &&& r == Arrival::Stop
                    &&& *final(e) == *final(x)
                    &&& *final(v) == (VerifierEnv {
                        error: Some(
                            VerificationError::ComplexityLimitExceeded {
                                limit: insn_limit(*old(v), config),
                            },
                        ),
                        ..fresh
                    })
                    &&& *final(s) == *final(t)
                } else {
                    exists|y: &mut E, z: &mut VerifierEnv, u: &mut State|
                        {
                            &&& #[trigger] arrival_call(y, z, prog, config, u, r)
                            &&& *y == *final(x)
                            &&& *z == fresh
                            &&& *u == *final(t)
                            &&& *final(e) == *final(y)
                            &&& *final(v) == *final(z)
                            &&& *final(s) == *final(u)
                        }
                }
            },
{
    reveal(receive_call);
    if (*v).error is None && !prog.invalid_pcs@.contains((*s).pc) {
        reveal(arrival_call);
        let (x, fresh, t) = choose|x: &mut E, fresh: VerifierEnv, t: &mut State|
            {
                &&& #[trigger] call_ensures(adapt_types::<E>, (x, &fresh, t, &prog), ())
                &&& fresh == (VerifierEnv { bcf_path_unreachable: false, ..*v })
                &&& *x == *e
                &&& *t == arrived(*v, prog, *s)
                &&& if (*v).counters.insn_processed == usize::MAX {
                    &&& r == Arrival::Stop
                    &&& *final(e) == *final(x)
                    &&& *final(v) == (VerifierEnv {
                        error: Some(
                            VerificationError::ComplexityLimitExceeded {
                                limit: insn_limit(*v, config),
                            },
                        ),
                        ..fresh
                    })
                    &&& *final(s) == *final(t)
                } else {
                    exists|y: &mut E, z: &mut VerifierEnv, u: &mut State|
                        {
                            &&& #[trigger] call_ensures(
                                decide_arrival::<E>,
                                (y, z, &prog, &config, u),
                                r,
                            )
                            &&& *y == *final(x)
                            &&& *z == fresh
                            &&& *u == *final(t)
                            &&& *final(e) == *final(y)
                            &&& *final(v) == *final(z)
                            &&& *final(s) == *final(u)
                        }
                }
            };
        reveal(adapt_call);
        assert(adapt_call(x, fresh, t, prog));
        if (*v).counters.insn_processed < usize::MAX {
            let (y, z, u) = choose|y: &mut E, z: &mut VerifierEnv, u: &mut State|
                {
                    &&& #[trigger] call_ensures(decide_arrival::<E>, (y, z, &prog, &config, u), r)
                    &&& *y == *final(x)
                    &&& *z == fresh
                    &&& *u == *final(t)
                    &&& *final(e) == *final(y)
                    &&& *final(v) == *final(z)
                    &&& *final(s) == *final(u)
                };
            assert(arrival_call(y, z, prog, config, u, r));
        }
    }
}

pub(crate) proof fn lemma_same_received<E: Engine>(
    b: Behaviour<E>,
    e1: &mut E,
    v1: &mut VerifierEnv,
    s1: &mut State,
    e2: &mut E,
    v2: &mut VerifierEnv,
    s2: &mut State,
    prog: Program,
    config: VerifierConfig,
    r1: Arrival,
    r2: Arrival,
)
    requires
        by_contents(b),
        forall|e: &mut E, c: &mut StateCache, id: u32| #[trigger]
            call_ensures(E::clean, (e, c, id), ()) ==> {
                let after = (b.clean)(*e, cache_content((*c)@), id);
                *final(e) == after.0 && cache_content((*final(c))@) == after.1
            },
        forall|e: &mut E, c: &mut StateCache, h: &Vec<Breadcrumb>, s: &State, k: &State| #[trigger]
            call_ensures(E::propagate_precision, (e, c, h, s, k), ()) ==> {
                let after = (b.precision)(
                    *e,
                    cache_content((*c)@),
                    history_content(h@),
                    s@,
                    k@,
                );
                *final(e) == after.0 && cache_content((*final(c))@) == after.1
            },
        forall|e: &mut E, c: &mut StateCache, s: &State, id: u32, pc: usize| #[trigger]
            call_ensures(E::add_backedge, (e, c, s, id, pc), ()) ==> {
                let after = (b.backedge)(*e, cache_content((*c)@), s@, id, pc);
                *final(e) == after.0 && cache_content((*final(c))@) == after.1
            },
        forall|e: &mut E, c: &mut StateCache, sites: &Vec<usize>, parent: Option<u32>| #[trigger]
            call_ensures(E::end_path, (e, c, sites, parent), ()) ==> {
                let after = (b.end_path)(*e, cache_content((*c)@), sites@, parent);
                *final(e) == after.0 && cache_content((*final(c))@) == after.1
            },
        forall|e: &mut E, v: &VerifierEnv, s: &mut State| #[trigger]
            call_ensures(E::resolve_type_conflicts, (e, v, s), ()) ==> {
                let after = (b.adapt)(*e, env_content(*v), (*s)@);
                *final(e) == after.0 && (*final(s))@ == after.1
            },
        forall|e: &mut E, v: &VerifierEnv, s: State, r: State| #[trigger]
            call_ensures(E::prepare_for_cache, (e, v, s), r) ==> {
                let after = (b.prepare)(*e, env_content(*v), s@);
                *final(e) == after.0 && r@ == after.1
            },
        receive_call(e1, v1, prog, config, s1, r1),
        receive_call(e2, v2, prog, config, s2, r2),
        *e1 == *e2,
        env_content(*v1) == env_content(*v2),
        (*s1)@ == (*s2)@,
    ensures
        r1 == r2,
        *final(e1) == *final(e2),
        env_content(*final(v1)) == env_content(*final(v2)),
        r1 == Arrival::Explore ==> (*final(s1))@ == (*final(s2))@,
{
    lemma_receive_parts(e1, v1, prog, config, s1, r1);
    lemma_receive_parts(e2, v2, prog, config, s2, r2);
    assert((*s1)@.pc == (*s2)@.pc);
    lemma_env_read(*v1, *v2);
    if (*v1).error is None && !prog.invalid_pcs@.contains((*s1).pc) {
        let (x1, fresh1, t1) = choose|x: &mut E, fresh: VerifierEnv, t: &mut State|
            {
                &&& #[trigger] adapt_call(x, fresh, t, prog)
                &&& fresh == (VerifierEnv { bcf_path_unreachable: false, ..*v1 })
                &&& *x == *e1
                &&& *t == arrived(*v1, prog, *s1)
                &&& if (*v1).counters.insn_processed == usize::MAX {
                    &&& r1 == Arrival::Stop
                    &&& *final(e1) == *final(x)
                    &&& *final(v1) == (VerifierEnv {
                        error: Some(
                            VerificationError::ComplexityLimitExceeded {
                                limit: insn_limit(*v1, config),
                            },
                        ),
                        ..fresh
                    })
                    &&& *final(s1) == *final(t)
                } else {
                    exists|y: &mut E, z: &mut VerifierEnv, u: &mut State|
                        {
                            &&& #[trigger] arrival_call(y, z, prog, config, u, r1)
                            &&& *y == *final(x)
                            &&& *z == fresh
                            &&& *u == *final(t)
                            &&& *final(e1) == *final(y)
                            &&& *final(v1) == *final(z)
                            &&& *final(s1) == *final(u)
                        }
                }
            };
        let (x2, fresh2, t2) = choose|x: &mut E, fresh: VerifierEnv, t: &mut State|
            {
                &&& #[trigger] adapt_call(x, fresh, t, prog)
                &&& fresh == (VerifierEnv { bcf_path_unreachable: false, ..*v2 })
                &&& *x == *e2
                &&& *t == arrived(*v2, prog, *s2)
                &&& if (*v2).counters.insn_processed == usize::MAX {
                    &&& r2 == Arrival::Stop
                    &&& *final(e2) == *final(x)
                    &&& *final(v2) == (VerifierEnv {
                        error: Some(
                            VerificationError::ComplexityLimitExceeded {
                                limit: insn_limit(*v2, config),
                            },
                        ),
                        ..fresh
                    })
                    &&& *final(s2) == *final(t)
                } else {
                    exists|y: &mut E, z: &mut VerifierEnv, u: &mut State|
                        {
                            &&& #[trigger] arrival_call(y, z, prog, config, u, r2)
                            &&& *y == *final(x)
                            &&& *z == fresh
                            &&& *u == *final(t)
                            &&& *final(e2) == *final(y)
                            &&& *final(v2) == *final(z)
                            &&& *final(s2) == *final(u)
                        }
                }
            };
        lemma_same_env(fresh1, fresh2);
        lemma_same_arrived(*v1, *v2, prog, *s1, *s2);
        lemma_same_adapted(b, x1, fresh1, t1, x2, fresh2, t2, prog);
        if (*v1).counters.insn_processed < usize::MAX {
            let (y1, z1, u1) = choose|y: &mut E, z: &mut VerifierEnv, u: &mut State|
                {
                    &&& #[trigger] arrival_call(y, z, prog, config, u, r1)
                    &&& *y == *final(x1)
                    &&& *z == fresh1
                    &&& *u == *final(t1)
                    &&& *final(e1) == *final(y)
                    &&& *final(v1) == *final(z)
                    &&& *final(s1) == *final(u)
                };
            let (y2, z2, u2) = choose|y: &mut E, z: &mut VerifierEnv, u: &mut State|
                {
                    &&& #[trigger] arrival_call(y, z, prog, config, u, r2)
                    &&& *y == *final(x2)
                    &&& *z == fresh2
                    &&& *u == *final(t2)
                    &&& *final(e2) == *final(y)
                    &&& *final(v2) == *final(z)
                    &&& *final(s2) == *final(u)
                };
            lemma_same_arrival(b, y1, z1, u1, y2, z2, u2, prog, config, r1, r2);
        } else {
            lemma_same_env(*final(v1), *final(v2));
        }
    } else {
        lemma_same_env(*final(v1), *final(v2));
    }
}

}
