//! What holds of the proofs that are collected: what they are about, where they are
//! tried, and what of them is kept.

use vstd::prelude::*;

use crate::ast::Reg;
use crate::branch_laws::lemma_filter;
use crate::emit::{
    added, all_added, is_target, known, mark_path_children_unsafe, mark_unsafe, marked_unsafe,
    offset_varies, push_all_unless_known, push_unless_known, target_regs, unreachable_base,
    unreachable_base_pc, unreachable_target_regs, var_regs,
};
use crate::engine::Engine;
use crate::env::{BundleKind, ProvedGoal, RefineEntry, VerifierEnv};
use crate::machine::{NumericDomain, State, StateView};
use crate::refine_map::{map_target_regs, push_attempts};

verus! {

// ---------------------------------------------------------------------------
// What a proof is about
// ---------------------------------------------------------------------------

/// Whether a register points to a place that varies: only the intervals know, where the
/// least and the largest offset differ.
pub open spec fn wanders(v: StateView, r: Reg) -> bool {
    match v.domain {
        NumericDomain::Interval(d) => exists|lo: i64, hi: i64|
            {
                &&& lo != hi
                &&& v.regs[r.spec_index()].ptr_offset matches Some(po) && po.min == lo && po.max
                    == hi
                &&& #[trigger] apart(lo, hi)
            },
        NumericDomain::Zone(d) => false,
    }
}

/// Whether two offsets differ.
pub open spec fn apart(lo: i64, hi: i64) -> bool {
    lo != hi
}

/// Whether each register has a larger number than the ones before it.
pub open spec fn in_order(s: Seq<Reg>) -> bool {
    forall|i: int, j: int|
        0 <= i < j < s.len() ==> (#[trigger] s[i]).spec_index() < (#[trigger] s[j]).spec_index()
}

proof fn lemma_filter_order(s: Seq<Reg>, p: spec_fn(Reg) -> bool)
    requires
        in_order(s),
    ensures
        in_order(s.filter(p)),
    decreases s.len(),
{
    reveal(Seq::filter);
    if s.len() > 0 {
        let rest = s.drop_last();
        assert(in_order(rest));
        lemma_filter_order(rest, p);
        lemma_filter(rest, p);
        let f = rest.filter(p);
        assert forall|i: int, j: int| 0 <= i < j < s.filter(p).len() implies (#[trigger] s.filter(
            p,
        )[i]).spec_index() < (#[trigger] s.filter(p)[j]).spec_index() by {
            assert(f[i] == s.filter(p)[i]);
            if j == f.len() {
                assert(f.contains(f[i]));
                let m = choose|m: int| 0 <= m < rest.len() && rest[m] == f[i];
                assert(s[m] == f[i]);
                assert(s[s.len() - 1] == s.filter(p)[j]);
            }
        }
    }
}

/// A proof that a state cannot be reached is about the registers that hold numbers and
/// about the pointers whose place varies, in order, but not about the frame pointer.
pub proof fn law_targets_hold_numbers(state: State, r: Vec<Reg>, x: Reg)
    requires
        call_ensures(unreachable_target_regs, (&state,), r),
    ensures
        r@.contains(x) <==> !(x is R10) && (state@.regs[x.spec_index()].ty is ScalarValue || (!(
        state@.regs[x.spec_index()].ty is NotInit) && wanders(state@, x))),
        in_order(r@),
{
    let v = state@;
    lemma_filter(var_regs(), |r: Reg| is_target(v, r));
    lemma_filter_order(var_regs(), |r: Reg| is_target(v, r));
    lemma_wanders(v, x);
    assert(var_regs().contains(x) <==> !(x is R10)) by {
        if !(x is R10) {
            assert(var_regs()[x.spec_index()] == x);
        }
    }
}

proof fn lemma_wanders(v: StateView, x: Reg)
    ensures
        wanders(v, x) <==> offset_varies(v.domain, v.regs[x.spec_index()]),
{
    match v.regs[x.spec_index()].ptr_offset {
        Some(po) => {
            assert(apart(po.min, po.max) <==> po.min != po.max);
        },
        None => {},
    }
}

/// A proof about a map access is about the pointer where its place varies, and then
/// about the register with the size where its value is not known.
pub proof fn law_map_proofs_are_about_pointer_and_size(
    state: State,
    base: Reg,
    size_reg: Option<Reg>,
    r: Vec<Reg>,
)
    requires
        call_ensures(map_target_regs, (&state, base, size_reg), r),
    ensures
        ({
            let open = size_reg matches Some(s) && state@.regs[s.spec_index()].fixed is None;
            &&& wanders(state@, base) && open ==> r@.len() == 2 && r@[0] == base && Some(r@[1])
                == size_reg
            &&& wanders(state@, base) && !open ==> r@.len() == 1 && r@[0] == base
            &&& !wanders(state@, base) && open ==> r@.len() == 1 && Some(r@[0]) == size_reg
            &&& !wanders(state@, base) && !open ==> r@.len() == 0
        }),
{
    lemma_wanders(state@, base);
}

/// A rejected state is traced back from the step under way, and where there is none from
/// the step that made it; without either nothing is asked. The engine is asked about
/// what the proof is about, from the checkpoint above the state.
pub proof fn law_rejected_states_are_traced_back<E: Engine>(
    engine: E,
    env: VerifierEnv,
    state: State,
    place: Option<usize>,
    landed: Option<(usize, u32)>,
    step: usize,
)
    requires
        call_ensures(unreachable_base_pc::<E>, (&engine, &env, &state), place),
        call_ensures(unreachable_base::<E>, (&engine, &env, &state), landed),
        env.current_step_idx is Some ==> step == env.current_step_idx->0,
        env.current_step_idx is None && state.history_idx is Some ==> step
            == state.history_idx->0,
    ensures
        env.current_step_idx is None && state.history_idx is None ==> place is None
            && landed is None,
        env.current_step_idx is Some || state.history_idx is Some ==> {
            &&& exists|targets: Vec<Reg>| #[trigger]
                targets@ == target_regs(state@) && call_ensures(
                    E::suffix_base_pc,
                    (&engine, &env, step, state.parent_cache_id, &targets),
                    place,
                )
            &&& exists|targets: Vec<Reg>| #[trigger]
                targets@ == target_regs(state@) && call_ensures(
                    E::suffix_base,
                    (&engine, &env, step, state.parent_cache_id, &targets),
                    landed,
                )
        },
{
}

// ---------------------------------------------------------------------------
// Bundles
// ---------------------------------------------------------------------------

/// Whether the first `n` entries of a bundle hold one with a hash.
pub open spec fn hashed_before(bundle: Seq<RefineEntry>, n: int, hash: u64) -> bool {
    exists|i: int| 0 <= i < n && i < bundle.len() && (#[trigger] bundle[i]).goal.cond_hash == hash
}

/// A goal is added once: one whose hash is in the bundle changes nothing; any other
/// becomes the last entry, of the given kind.
pub proof fn law_goals_are_added_once(
    bundle: &mut Vec<RefineEntry>,
    goal: ProvedGoal,
    kind: BundleKind,
)
    requires
        call_ensures(push_unless_known, (bundle, goal, kind), ()),
    ensures
        ({
            let was = old(bundle)@;
            let is = final(bundle)@;
            &&& hashed_before(was, was.len() as int, goal.cond_hash) ==> is == was
            &&& !hashed_before(was, was.len() as int, goal.cond_hash) ==> {
                &&& is.len() == was.len() + 1
                &&& is[was.len() as int].goal == goal && is[was.len() as int].kind == kind
                &&& forall|i: int| #![trigger is[i]] 0 <= i < was.len() ==> is[i] == was[i]
            }
        }),
{
    let was = (*bundle)@;
    assert(known(was, goal.cond_hash) <==> hashed_before(
        was,
        was.len() as int,
        goal.cond_hash,
    )) by {
        if known(was, goal.cond_hash) {
            let i = choose|i: int|
                0 <= i < was.len() && (#[trigger] was[i]).goal.cond_hash == goal.cond_hash;
            assert(was[i].goal.cond_hash == goal.cond_hash);
        }
    }
}

/// Whether a bundle holds what another one held and then the first goal of each hash
/// that was not in it, in order.
pub open spec fn extends(
    was: Seq<RefineEntry>,
    is: Seq<RefineEntry>,
    goals: Seq<ProvedGoal>,
    kind: BundleKind,
) -> bool {
    &&& was.len() <= is.len()
    &&& forall|i: int| #![trigger is[i]] 0 <= i < was.len() ==> is[i] == was[i]
    &&& forall|i: int|
        0 <= i < goals.len() ==> hashed_before(
            is,
            is.len() as int,
            (#[trigger] goals[i]).cond_hash,
        )
    &&& forall|k: int|
        was.len() <= k < is.len() ==> {
            &&& (#[trigger] is[k]).kind == kind
            &&& !hashed_before(is, k, is[k].goal.cond_hash)
            &&& exists|i: int|
                0 <= i < goals.len() && #[trigger] goals[i] == is[k].goal && forall|j: int|
                    0 <= j < i ==> (#[trigger] goals[j]).cond_hash != is[k].goal.cond_hash
        }
}

pub(crate) proof fn lemma_extends(was: Seq<RefineEntry>, goals: Seq<ProvedGoal>, kind: BundleKind)
    ensures
        extends(was, all_added(was, goals, kind), goals, kind),
    decreases goals.len(),
{
    let is = all_added(was, goals, kind);
    if goals.len() > 0 {
        let goal = goals[0];
        let mid = added(was, goal, kind);
        let rest = goals.skip(1);
        lemma_extends(mid, rest, kind);
        assert(hashed_before(mid, mid.len() as int, goal.cond_hash)) by {
            if known(was, goal.cond_hash) {
                let i = choose|i: int|
                    0 <= i < was.len() && (#[trigger] was[i]).goal.cond_hash == goal.cond_hash;
                assert(mid[i].goal.cond_hash == goal.cond_hash);
            } else {
                assert(mid[was.len() as int].goal.cond_hash == goal.cond_hash);
            }
        }
        let m = choose|m: int|
            0 <= m < mid.len() && (#[trigger] mid[m]).goal.cond_hash == goal.cond_hash;
        assert(is[m] == mid[m]);
        assert(forall|i: int| #![trigger is[i]] 0 <= i < was.len() ==> is[i] == was[i]) by {
            assert forall|i: int| #![trigger is[i]] 0 <= i < was.len() implies is[i] == was[i] by {
                assert(mid[i] == was[i]);
            }
        }
        assert forall|i: int| 0 <= i < goals.len() implies hashed_before(
            is,
            is.len() as int,
            (#[trigger] goals[i]).cond_hash,
        ) by {
            if i > 0 {
                assert(rest[i - 1] == goals[i]);
            } else {
                assert(is[m].goal.cond_hash == goal.cond_hash);
            }
        }
        assert forall|k: int| was.len() <= k < is.len() implies {
            &&& (#[trigger] is[k]).kind == kind
            &&& !hashed_before(is, k, is[k].goal.cond_hash)
            &&& exists|i: int|
                0 <= i < goals.len() && #[trigger] goals[i] == is[k].goal && forall|j: int|
                    0 <= j < i ==> (#[trigger] goals[j]).cond_hash != is[k].goal.cond_hash
        } by {
            if k < mid.len() {
                assert(is[k] == mid[k]);
                assert(mid[k].goal == goal);
                assert(goals[0] == is[k].goal);
                if hashed_before(is, k, goal.cond_hash) {
                    let i = choose|i: int|
                        0 <= i < k && i < is.len() && (#[trigger] is[i]).goal.cond_hash
                            == goal.cond_hash;
                    assert(was[i].goal.cond_hash == goal.cond_hash);
                }
            } else {
                let i = choose|i: int|
                    0 <= i < rest.len() && #[trigger] rest[i] == is[k].goal && forall|j: int|
                        0 <= j < i ==> (#[trigger] rest[j]).cond_hash != is[k].goal.cond_hash;
                assert(goals[i + 1] == is[k].goal);
                assert(is[k].goal.cond_hash != goal.cond_hash) by {
                    if is[k].goal.cond_hash == goal.cond_hash {
                        assert(is[m].goal.cond_hash == is[k].goal.cond_hash);
                    }
                }
                assert forall|j: int| 0 <= j < i + 1 implies (#[trigger] goals[j]).cond_hash
                    != is[k].goal.cond_hash by {
                    if j > 0 {
                        assert(rest[j - 1] == goals[j]);
                    }
                }
            }
        }
    }
}

/// Goals are added in order, each hash once.
pub proof fn law_each_hash_is_added_once(
    bundle: &mut Vec<RefineEntry>,
    goals: Vec<ProvedGoal>,
    kind: BundleKind,
)
    requires
        call_ensures(push_all_unless_known, (bundle, goals, kind), ()),
    ensures
        extends(old(bundle)@, final(bundle)@, goals@, kind),
{
    lemma_extends((*bundle)@, goals@, kind);
}

/// The proof of the live state is kept in any case, as a refinement; those of its
/// replays follow it, each hash once.
pub proof fn law_direct_proofs_are_kept(
    bundle: &mut Vec<RefineEntry>,
    direct: Option<ProvedGoal>,
    replayed: Vec<ProvedGoal>,
)
    requires
        call_ensures(push_attempts, (bundle, direct, replayed), ()),
    ensures
        direct is None ==> extends(old(bundle)@, final(bundle)@, replayed@, BundleKind::Refine),
        direct matches Some(goal) ==> {
            let n = old(bundle)@.len() as int;
            &&& final(bundle)@.len() > n
            &&& final(bundle)@[n].goal == goal && final(bundle)@[n].kind == BundleKind::Refine
            &&& exists|mid: Seq<RefineEntry>|
                #![trigger extends(mid, final(bundle)@, replayed@, BundleKind::Refine)]
                mid.len() == n + 1 && (forall|i: int|
                    #![trigger mid[i]]
                    0 <= i < n ==> mid[i] == old(bundle)@[i]) && extends(
                    mid,
                    final(bundle)@,
                    replayed@,
                    BundleKind::Refine,
                )
        },
{
    let was = (*bundle)@;
    match direct {
        Some(goal) => {
            let mid = was.push(RefineEntry { kind: BundleKind::Refine, goal });
            lemma_extends(mid, replayed@, BundleKind::Refine);
            assert((*final(bundle))@[was.len() as int] == mid[was.len() as int]);
        },
        None => lemma_extends(was, replayed@, BundleKind::Refine),
    }
}

/// A mark is set on the given checkpoints and on no others: they stand for no arrival any
/// more, and nothing else of them changes.
pub proof fn law_marks_are_set(env: &mut VerifierEnv, ids: Vec<u32>, n: u32)
    requires
        call_ensures(mark_unsafe, (env, &ids), ()),
    ensures
        ids@.contains(n) ==> final(env).cache@.resolve(n) == match old(env).cache@.resolve(n) {
            Some(e) => Some((e.0, (State { children_unsafe: true, ..e.1 }))),
            None => None,
        },
        !ids@.contains(n) ==> final(env).cache@.resolve(n) == old(env).cache@.resolve(n),
        *final(env) == (VerifierEnv { cache: final(env).cache, ..*old(env) }),
{
}

/// What a proof rests on is marked: the checkpoints that the engine names for the state
/// and the base of its proof, and no others.
pub proof fn law_what_a_proof_rests_on_is_marked<E: Engine>(
    engine: E,
    env: &mut VerifierEnv,
    state: State,
    base: Option<u32>,
)
    requires
        call_ensures(mark_path_children_unsafe::<E>, (&engine, env, &state, base), ()),
    ensures
        exists|ids: Vec<u32>|
            {
                &&& #[trigger] call_ensures(
                    E::parents_in_proof,
                    (&engine, &*old(env), &state, base),
                    ids,
                )
                &&& forall|n: u32|
                    #![trigger final(env).cache@.resolve(n)]
                    final(env).cache@.resolve(n) == match old(env).cache@.resolve(n) {
                        Some(e) => Some(
                            (
                                e.0,
                                (State {
                                    children_unsafe: e.1.children_unsafe || ids@.contains(n),
                                    ..e.1
                                }),
                            ),
                        ),
                        None => None,
                    }
            },
{
    let ids = choose|ids: Vec<u32>|
        #![trigger marked_unsafe((*env).cache@, final(env).cache@, ids@)]
        marked_unsafe((*env).cache@, final(env).cache@, ids@) && call_ensures(
            E::parents_in_proof,
            (&engine, &*env, &state, base),
            ids,
        );
    assert forall|n: u32|
        #![trigger final(env).cache@.resolve(n)]
        final(env).cache@.resolve(n) == match (*env).cache@.resolve(n) {
            Some(e) => Some(
                (
                    e.0,
                    (State {
                        children_unsafe: e.1.children_unsafe || ids@.contains(n),
                        ..e.1
                    }),
                ),
            ),
            None => None,
        } by {}
}

}
