//! Proofs that an access to a map stays within the map although its range alone
//! does not show it.

use vstd::prelude::*;

use crate::ast::Reg;
use crate::cache::{CacheData, StateCache};
use crate::emit::{
    all_added, does_offset_vary, mark_path_children_unsafe, offset_varies, push_all_unless_known,
};
use crate::engine::{Engine, MapAccess};
use crate::env::{BundleKind, ProvedGoal, RefineEntry, VerifierEnv};
use crate::machine::{State, StateView};
use crate::replay::{replay_to_reject, ReplayShape};

verus! {

/// How many checkpoints a ladder takes from one line of ancestors.
pub const RUNGS: usize = 12;

/// The registers that a proof about a map access is about: the pointer where its
/// offset varies, and the register with the size where its value is not known.
pub open spec fn map_targets(v: StateView, base: Reg, size_reg: Option<Reg>) -> Seq<Reg> {
    let ptr = if offset_varies(v.domain, v.regs[base.spec_index()]) {
        seq![base]
    } else {
        Seq::empty()
    };
    match size_reg {
        Some(r) => if v.regs[r.spec_index()].fixed is None {
            ptr.push(r)
        } else {
            ptr
        },
        None => ptr,
    }
}

/// The registers that a proof about a map access is about.
pub fn map_target_regs(state: &State, base: Reg, size_reg: Option<Reg>) -> (r: Vec<Reg>)
    ensures
        r@ == map_targets(state@, base, size_reg),
{
    let mut out: Vec<Reg> = Vec::new();
    let info = state.reg(base);
    if does_offset_vary(&state.domain, &info) {
        out.push(base);
    }
    match size_reg {
        Some(r) => {
            if state.reg(r).fixed.is_none() {
                out.push(r);
            }
        },
        None => {},
    }
    assert(out@ =~= map_targets(state@, base, size_reg));
    out
}

// ---------------------------------------------------------------------------
// The ladder
// ---------------------------------------------------------------------------

/// At most `n` checkpoints, from a first one upwards.
pub open spec fn chain(cache: CacheData, first: Option<u32>, n: nat) -> Seq<u32>
    decreases n,
{
    match first {
        Some(id) => if n == 0 {
            Seq::empty()
        } else {
            seq![id] + chain(cache, cache.parent_of(id), (n - 1) as nat)
        },
        None => Seq::empty(),
    }
}

/// Rungs with at most `n` more checkpoints, from a first one upwards, up to one
/// that is a rung already.
pub open spec fn joined(cache: CacheData, rungs: Seq<u32>, first: Option<u32>, n: nat) -> Seq<u32>
    decreases n,
{
    match first {
        Some(id) => if n == 0 || rungs.contains(id) {
            rungs
        } else {
            joined(cache, rungs.push(id), cache.parent_of(id), (n - 1) as nat)
        },
        None => rungs,
    }
}

/// The checkpoints from which a path is replayed: the base of the proof and its
/// ancestors, then the ancestors of the live state up to the first that is one
/// of these.
pub open spec fn ladder(cache: CacheData, base: u32, live: Option<u32>) -> Seq<u32> {
    joined(cache, chain(cache, Some(base), RUNGS as nat), live, RUNGS as nat)
}

fn holds_id(ids: &Vec<u32>, id: u32) -> (r: bool)
    ensures
        r == ids@.contains(id),
{
    let mut i: usize = 0;
    while i < ids.len()
        invariant
            i <= ids@.len(),
            forall|j: int| 0 <= j < i ==> ids@[j] != id,
        decreases ids@.len() - i,
    {
        if ids[i] == id {
            return true;
        }
        i += 1;
    }
    false
}

/// The checkpoints from which a path is replayed.
pub fn rung_ids(cache: &StateCache, base: u32, live: Option<u32>) -> (r: Vec<u32>)
    ensures
        r@ == ladder(cache@, base, live),
        r@.len() > 0,
{
    let mut rungs: Vec<u32> = Vec::new();
    let mut cur: Option<u32> = Some(base);
    let mut left: usize = RUNGS;
    assert(rungs@ + chain(cache@, cur, left as nat) =~= chain(cache@, Some(base), RUNGS as nat));
    while left > 0
        invariant
            rungs@ + chain(cache@, cur, left as nat) == chain(cache@, Some(base), RUNGS as nat),
            left == RUNGS ==> cur == Some(base),
            left < RUNGS ==> rungs@.len() > 0,
            left <= RUNGS,
        decreases left,
    {
        match cur {
            Some(id) => {
                let above = cache.parent(id);
                proof {
                    let rest = chain(cache@, above, (left - 1) as nat);
                    assert(rungs@ + (seq![id] + rest) =~= rungs@.push(id) + rest);
                }
                rungs.push(id);
                cur = above;
                left = left - 1;
            },
            None => {
                assert(rungs@ + Seq::<u32>::empty() =~= rungs@);
                left = 0;
                cur = None;
            },
        }
    }
    assert(chain(cache@, cur, 0) =~= Seq::<u32>::empty());
    assert(rungs@ + Seq::<u32>::empty() =~= rungs@);
    let ghost first = rungs@;
    let mut next: Option<u32> = live;
    let mut more: usize = RUNGS;
    while more > 0
        invariant
            first == chain(cache@, Some(base), RUNGS as nat),
            joined(cache@, rungs@, next, more as nat) == joined(cache@, first, live, RUNGS as nat),
            rungs@.len() > 0,
        decreases more,
    {
        match next {
            Some(id) => {
                if holds_id(&rungs, id) {
                    return rungs;
                }
                next = cache.parent(id);
                rungs.push(id);
                more = more - 1;
            },
            None => {
                return rungs;
            },
        }
    }
    rungs
}

/// A way to replay a path.
pub open spec fn shape(
    anchor_at_parent: bool,
    share_slot_vars: bool,
    reset_at_crossing: Option<usize>,
    crossing_pc: Option<usize>,
) -> ReplayShape {
    ReplayShape { anchor_at_parent, share_slot_vars, reset_at_crossing, crossing_pc }
}

/// The ways in which the path from a rung is replayed. Only from the first one
/// it is also replayed without sharing terms with stack slots.
pub open spec fn shapes(first_rung: bool) -> Seq<ReplayShape> {
    let unshared = if first_rung {
        seq![shape(false, false, None, None), shape(true, false, None, None)]
    } else {
        Seq::empty()
    };
    unshared + seq![
        shape(false, true, None, None),
        shape(true, true, None, None),
        shape(false, true, Some(1), None),
        shape(false, true, Some(2), None),
        shape(false, true, Some(3), None),
        shape(false, true, Some(4), None),
    ]
}

fn make_shape(
    anchor_at_parent: bool,
    share_slot_vars: bool,
    reset_at_crossing: Option<usize>,
    crossing_pc: Option<usize>,
) -> (r: ReplayShape)
    ensures
        r == shape(anchor_at_parent, share_slot_vars, reset_at_crossing, crossing_pc),
{
    ReplayShape { anchor_at_parent, share_slot_vars, reset_at_crossing, crossing_pc }
}

/// The ways in which the path from a rung is replayed.
pub fn rung_shapes(first_rung: bool) -> (r: Vec<ReplayShape>)
    ensures
        r@ == shapes(first_rung),
        forall|k: int|
            0 <= k < r@.len() ==> (#[trigger] r@[k]).reset_at_crossing != Some(0usize),
{
    let mut out: Vec<ReplayShape> = Vec::new();
    if first_rung {
        out.push(make_shape(false, false, None, None));
        out.push(make_shape(true, false, None, None));
    }
    out.push(make_shape(false, true, None, None));
    out.push(make_shape(true, true, None, None));
    out.push(make_shape(false, true, Some(1), None));
    out.push(make_shape(false, true, Some(2), None));
    out.push(make_shape(false, true, Some(3), None));
    out.push(make_shape(false, true, Some(4), None));
    assert(out@ =~= shapes(first_rung));
    out
}

/// Whether each number is larger than the ones before it.
pub open spec fn ascending(s: Seq<usize>) -> bool {
    forall|a: int, b: int| 0 <= a < b < s.len() ==> #[trigger] s[a] < #[trigger] s[b]
}

/// Whether some rung stands at `pc`.
pub open spec fn rung_stands_at(cache: CacheData, rungs: Seq<u32>, pc: usize) -> bool {
    exists|i: int|
        0 <= i < rungs.len() && (cache.resolve(#[trigger] rungs[i]) matches Some(e) && e.1.pc == pc)
}

fn insert_ascending(pcs: &mut Vec<usize>, pc: usize)
    requires
        ascending(old(pcs)@),
    ensures
        ascending(final(pcs)@),
        forall|x: usize| #[trigger]
            final(pcs)@.contains(x) <==> old(pcs)@.contains(x) || x == pc,
{
    let ghost before = pcs@;
    let mut i: usize = 0;
    while i < pcs.len() && pcs[i] < pc
        invariant
            i <= pcs@.len(),
            pcs@ == before,
            ascending(pcs@),
            forall|j: int| 0 <= j < i ==> #[trigger] pcs@[j] < pc,
        decreases pcs@.len() - i,
    {
        i += 1;
    }
    if i < pcs.len() && pcs[i] == pc {
        assert(pcs@.contains(pc));
        return;
    }
    assert(forall|j: int| i <= j < before.len() ==> before[j] > pc);
    pcs.insert(i, pc);
    proof {
        assert forall|x: usize| #[trigger] pcs@.contains(x) <==> before.contains(x) || x == pc by {
            if before.contains(x) {
                let m = choose|m: int| 0 <= m < before.len() && before[m] == x;
                if m < i {
                    assert(pcs@[m] == x);
                } else {
                    assert(pcs@[m + 1] == x);
                }
            }
            assert(pcs@[i as int] == pc);
            if pcs@.contains(x) && x != pc {
                let m = choose|m: int| 0 <= m < pcs@.len() && pcs@[m] == x;
                if m < i {
                    assert(before[m] == x);
                } else {
                    assert(before[m - 1] == x);
                }
            }
        }
    }
}

/// The places at which rungs stand, in ascending order, each once.
pub fn cut_pcs(cache: &StateCache, rungs: &Vec<u32>) -> (r: Vec<usize>)
    ensures
        ascending(r@),
        forall|pc: usize| #[trigger] r@.contains(pc) <==> rung_stands_at(cache@, rungs@, pc),
{
    let mut out: Vec<usize> = Vec::new();
    let mut i: usize = 0;
    while i < rungs.len()
        invariant
            i <= rungs@.len(),
            ascending(out@),
            forall|pc: usize| #[trigger]
                out@.contains(pc) <==> rung_stands_at(cache@, rungs@.take(i as int), pc),
        decreases rungs@.len() - i,
    {
        let ghost before = out@;
        let ghost taken = rungs@.take(i as int);
        let ghost more = rungs@.take(i + 1);
        match cache.data().state_by_cache_id(rungs[i]) {
            Some((_, s)) => {
                insert_ascending(&mut out, s.pc);
            },
            None => {},
        }
        proof {
            assert forall|pc: usize| #[trigger]
                out@.contains(pc) <==> rung_stands_at(cache@, more, pc) by {
                assert(before.contains(pc) <==> rung_stands_at(cache@, taken, pc));
                if rung_stands_at(cache@, taken, pc) {
                    let m = choose|m: int|
                        0 <= m < taken.len() && (cache@.resolve(#[trigger] taken[m]) matches Some(e)
                            && e.1.pc == pc);
                    assert(more[m] == taken[m]);
                }
                if rung_stands_at(cache@, more, pc) {
                    let m = choose|m: int|
                        0 <= m < more.len() && (cache@.resolve(#[trigger] more[m]) matches Some(e)
                            && e.1.pc == pc);
                    if m < i {
                        assert(taken[m] == more[m]);
                    }
                }
                assert(more[i as int] == rungs@[i as int]);
            }
        }
        i += 1;
    }
    assert(rungs@.take(i as int) =~= rungs@);
    out
}

/// A replay that is tried: from a rung, in a way.
#[derive(Clone, Copy, Debug)]
pub struct Try {
    pub rung: u32,
    pub how: ReplayShape,
}

/// The replays from one rung, in the given ways.
pub open spec fn tries_from(rung: u32, ways: Seq<ReplayShape>) -> Seq<Try> {
    ways.map_values(|how: ReplayShape| Try { rung, how })
}

/// The replays from the first `n` rungs, each in every way.
pub open spec fn rung_tries(rungs: Seq<u32>, n: nat) -> Seq<Try>
    decreases n,
{
    if n == 0 {
        Seq::empty()
    } else {
        rung_tries(rungs, (n - 1) as nat) + tries_from(rungs[n - 1], shapes(n == 1))
    }
}

/// The ways in which a path is cut where it comes by `pc`: the last time, and up to
/// three times before that.
pub open spec fn cut_shapes(pc: usize) -> Seq<ReplayShape> {
    seq![
        shape(false, true, Some(1), Some(pc)),
        shape(false, true, Some(2), Some(pc)),
        shape(false, true, Some(3), Some(pc)),
        shape(false, true, Some(4), Some(pc)),
    ]
}

/// The replays from a rung that are cut at the first `n` of the given places.
pub open spec fn cut_tries(rung: u32, cuts: Seq<usize>, n: nat) -> Seq<Try>
    decreases n,
{
    if n == 0 {
        Seq::empty()
    } else {
        cut_tries(rung, cuts, (n - 1) as nat) + tries_from(rung, cut_shapes(cuts[n - 1]))
    }
}

/// Whether no replay starts over at a crossing that does not exist.
pub open spec fn well_shaped(tries: Seq<Try>) -> bool {
    forall|k: int|
        0 <= k < tries.len() ==> (#[trigger] tries[k]).how.reset_at_crossing != Some(0usize)
}

fn push_tries(out: &mut Vec<Try>, rung: u32, ways: &Vec<ReplayShape>)
    requires
        well_shaped(old(out)@),
        forall|k: int|
            0 <= k < ways@.len() ==> (#[trigger] ways@[k]).reset_at_crossing != Some(0usize),
    ensures
        final(out)@ == old(out)@ + tries_from(rung, ways@),
        well_shaped(final(out)@),
{
    let ghost out0 = out@;
    let ghost all = tries_from(rung, ways@);
    let mut k: usize = 0;
    assert(out@ =~= out0 + all.take(0));
    while k < ways.len()
        invariant
            k <= ways@.len(),
            all == tries_from(rung, ways@),
            out@ == out0 + all.take(k as int),
            well_shaped(out@),
            forall|j: int|
                0 <= j < ways@.len() ==> (#[trigger] ways@[j]).reset_at_crossing != Some(0usize),
        decreases ways@.len() - k,
    {
        out.push(Try { rung, how: ways[k] });
        k += 1;
        assert(out@ =~= out0 + all.take(k as int));
    }
    assert(all.take(k as int) =~= all);
}

/// The replays from the given rungs, each in every way.
pub fn list_rung_tries(rungs: &Vec<u32>) -> (r: Vec<Try>)
    ensures
        r@ == rung_tries(rungs@, rungs@.len()),
        well_shaped(r@),
{
    let mut out: Vec<Try> = Vec::new();
    let mut i: usize = 0;
    while i < rungs.len()
        invariant
            i <= rungs@.len(),
            out@ == rung_tries(rungs@, i as nat),
            well_shaped(out@),
        decreases rungs@.len() - i,
    {
        let ways = rung_shapes(i == 0);
        push_tries(&mut out, rungs[i], &ways);
        i += 1;
    }
    out
}

/// The replays from a rung that are cut at the given places.
pub fn list_cut_tries(rung: u32, cuts: &Vec<usize>) -> (r: Vec<Try>)
    ensures
        r@ == cut_tries(rung, cuts@, cuts@.len()),
        well_shaped(r@),
{
    let mut out: Vec<Try> = Vec::new();
    let mut c: usize = 0;
    while c < cuts.len()
        invariant
            c <= cuts@.len(),
            out@ == cut_tries(rung, cuts@, c as nat),
            well_shaped(out@),
        decreases cuts@.len() - c,
    {
        let pc: usize = cuts[c];
        let mut ways: Vec<ReplayShape> = Vec::new();
        ways.push(make_shape(false, true, Some(1), Some(pc)));
        ways.push(make_shape(false, true, Some(2), Some(pc)));
        ways.push(make_shape(false, true, Some(3), Some(pc)));
        ways.push(make_shape(false, true, Some(4), Some(pc)));
        assert(ways@ =~= cut_shapes(pc));
        push_tries(&mut out, rung, &ways);
        c += 1;
    }
    out
}

// ---------------------------------------------------------------------------
// The proofs
// ---------------------------------------------------------------------------

/// A bundle with the goals of one access: the one of the live state in any case,
/// those of the replays unless their hashes are there already.
pub open spec fn with_attempts(
    bundle: Seq<RefineEntry>,
    direct: Option<ProvedGoal>,
    replayed: Seq<ProvedGoal>,
) -> Seq<RefineEntry> {
    let first = match direct {
        Some(goal) => bundle.push(RefineEntry { kind: BundleKind::Refine, goal }),
        None => bundle,
    };
    all_added(first, replayed, BundleKind::Refine)
}

/// Adds the goals of one access to a bundle.
pub fn push_attempts(
    bundle: &mut Vec<RefineEntry>,
    direct: Option<ProvedGoal>,
    replayed: Vec<ProvedGoal>,
)
    ensures
        final(bundle)@ == with_attempts(old(bundle)@, direct, replayed@),
{
    match direct {
        Some(goal) => {
            bundle.push(RefineEntry { kind: BundleKind::Refine, goal });
        },
        None => {},
    }
    push_all_unless_known(bundle, replayed, BundleKind::Refine);
}

/// Whether the engine may have said that the path on which an access rests
/// begins at `landed`.
pub open spec fn may_land<E: Engine>(
    engine: E,
    env: VerifierEnv,
    state: State,
    access: MapAccess,
    landed: Option<(usize, u32)>,
) -> bool {
    match state.history_idx {
        None => landed is None,
        Some(step) => exists|targets: Vec<Reg>| #[trigger]
            targets@ == map_targets(state@, access.base, env.bcf_size_reg) && call_ensures(
                E::suffix_base,
                (&engine, &env, step, state.parent_cache_id, &targets),
                landed,
            ),
    }
}

/// Whether the engine may have given `goal` as the proof of an access in the
/// live state.
pub open spec fn may_prove_directly<E: Engine>(
    engine: E,
    env: VerifierEnv,
    state: State,
    access: MapAccess,
    landed: Option<(usize, u32)>,
    goal: Option<ProvedGoal>,
) -> bool {
    let base_pc: Option<usize> = match landed {
        Some(l) => Some(l.0),
        None => None,
    };
    call_ensures(
        E::prove_map_access,
        (&engine, &state, &access, env.bcf_size_reg, base_pc, None::<&Vec<u64>>),
        goal,
    )
}

/// The hashes of a bundle's entries.
pub open spec fn bundle_hashes(bundle: Seq<RefineEntry>) -> Seq<u64> {
    bundle.map_values(|e: RefineEntry| e.goal.cond_hash)
}

/// The hashes of a bundle's entries.
fn known_hashes(bundle: &Vec<RefineEntry>) -> (r: Vec<u64>)
    ensures
        r@ == bundle_hashes(bundle@),
{
    let mut out: Vec<u64> = Vec::new();
    let mut i: usize = 0;
    while i < bundle.len()
        invariant
            i <= bundle@.len(),
            out@.len() == i,
            forall|j: int| 0 <= j < i ==> #[trigger] out@[j] == bundle@[j].goal.cond_hash,
        decreases bundle@.len() - i,
    {
        out.push(bundle[i].goal.cond_hash);
        i += 1;
    }
    assert(out@ =~= bundle_hashes(bundle@));
    out
}

/// Whether a run keeps what a replay must not change.
pub open spec fn replay_frame(before: VerifierEnv, after: VerifierEnv) -> bool {
    &&& after.counters == before.counters
    &&& after.error == before.error
    &&& after.bcf_proofs == before.bcf_proofs
}

/// Replays a path in one way and has the engine try to prove the access in the
/// state that the replay reaches. Goals whose hashes are known are not proved
/// again.
pub fn try_replayed<E: Engine>(
    engine: &mut E,
    env: &mut VerifierEnv,
    access: &MapAccess,
    size_reg: Option<Reg>,
    what: Try,
    hashes: &Vec<u64>,
) -> (reply: Option<ProvedGoal>)
    requires
        what.how.reset_at_crossing != Some(0usize),
    ensures
        replay_frame(*old(env), *final(env)),
        exists|e: &mut E, v: &mut VerifierEnv, reached: Option<State>|
            {
                &&& #[trigger] call_ensures(
                    replay_to_reject::<E>,
                    (e, v, what.rung, what.how),
                    reached,
                )
                &&& *e == *old(engine)
                &&& *v == *old(env)
                &&& *final(engine) == *final(e)
                &&& *final(env) == *final(v)
                &&& match reached {
                    Some(s) => call_ensures(
                        E::prove_map_access,
                        (
                            &*final(engine),
                            &s,
                            access,
                            size_reg,
                            None::<usize>,
                            Some(hashes),
                        ),
                        reply,
                    ),
                    None => reply is None,
                }
            },
{
    match replay_to_reject(engine, env, what.rung, what.how) {
        Some(reached) => engine.prove_map_access(&reached, access, size_reg, None, Some(hashes)),
        None => None,
    }
}

/// A row of tries between two of them: the hashes that are known, and the goals
/// that were proved.
pub struct TryMoment<'c, E> {
    pub engine: E,
    pub env: VerifierEnv<'c>,
    pub hashes: Seq<u64>,
    pub goals: Seq<ProvedGoal>,
}

/// A try: what was handed to `try_replayed`, and what it returned.
pub struct TryCall<'a, 'c, E> {
    pub engine: &'a mut E,
    pub env: &'a mut VerifierEnv<'c>,
    pub hashes: Vec<u64>,
    pub reply: Option<ProvedGoal>,
}

/// Whether a replay was tried at a moment, and the next one holds its goal.
pub open spec fn try_made<E: Engine>(
    access: MapAccess,
    size_reg: Option<Reg>,
    what: Try,
    moment: TryMoment<E>,
    call: TryCall<E>,
    next: TryMoment<E>,
) -> bool {
    &&& *call.engine == moment.engine
    &&& *call.env == moment.env
    &&& call.hashes@ == moment.hashes
    &&& call_ensures(
        try_replayed::<E>,
        (call.engine, call.env, &access, size_reg, what, &call.hashes),
        call.reply,
    )
    &&& match call.reply {
        Some(goal) => {
            &&& next.hashes == moment.hashes.push(goal.cond_hash)
            &&& next.goals == moment.goals.push(goal)
        },
        None => next.hashes == moment.hashes && next.goals == moment.goals,
    }
}

/// Whether the given replays were tried one after the other.
pub open spec fn tries_made<E: Engine>(
    access: MapAccess,
    size_reg: Option<Reg>,
    tries: Seq<Try>,
    moments: Seq<TryMoment<E>>,
    calls: Seq<TryCall<E>>,
) -> bool {
    &&& calls.len() == tries.len()
    &&& moments.len() == tries.len() + 1
    &&& forall|i: int|
        0 <= i < tries.len() ==> try_made(
            access,
            size_reg,
            tries[i],
            moments[i],
            #[trigger] calls[i],
            moments[i + 1],
        )
}

/// Tries the given replays one after the other.
pub fn try_all<E: Engine>(
    engine: &mut E,
    env: &mut VerifierEnv,
    access: &MapAccess,
    size_reg: Option<Reg>,
    tries: &Vec<Try>,
    hashes: &mut Vec<u64>,
    goals: &mut Vec<ProvedGoal>,
)
    requires
        well_shaped(tries@),
    ensures
        replay_frame(*old(env), *final(env)),
        exists|moments: Seq<TryMoment<E>>, calls: Seq<TryCall<E>>|
            {
                    &&& #[trigger] tries_made(*access, size_reg, tries@, moments, calls)
                    &&& forall|i: int|
                        0 <= i < calls.len() ==> *final((#[trigger] calls[i]).engine) == moments[i
                            + 1].engine && *final(calls[i].env) == moments[i + 1].env
                    &&& moments[0] == (TryMoment {
                        engine: *old(engine),
                        env: *old(env),
                        hashes: old(hashes)@,
                        goals: old(goals)@,
                    })
                    &&& moments.last() == (TryMoment {
                        engine: *final(engine),
                        env: *final(env),
                        hashes: final(hashes)@,
                        goals: final(goals)@,
                    })
                },
{
    let ghost engine0 = *engine;
    let ghost env0 = *env;
    let ghost hashes0 = hashes@;
    let ghost goals0 = goals@;
    let mut k: usize = 0;
    proof {
        let m = TryMoment { engine: engine0, env: env0, hashes: hashes0, goals: goals0 };
        assert(tries@.take(0) =~= Seq::<Try>::empty());
        assert(tries_made(
            *access,
            size_reg,
            tries@.take(0),
            seq![m],
            Seq::<TryCall<E>>::empty(),
        ));
    }
    while k < tries.len()
        invariant
            k <= tries@.len(),
            well_shaped(tries@),
            replay_frame(env0, *env),
            exists|moments: Seq<TryMoment<E>>, calls: Seq<TryCall<E>>|
                {
                    &&& #[trigger] tries_made(*access, size_reg, tries@.take(k as int), moments, calls)
                    &&& forall|i: int|
                        0 <= i < calls.len() ==> *final((#[trigger] calls[i]).engine) == moments[i
                            + 1].engine && *final(calls[i].env) == moments[i + 1].env
                    &&& moments[0] == (TryMoment {
                        engine: engine0,
                        env: env0,
                        hashes: hashes0,
                        goals: goals0,
                    })
                    &&& moments.last() == (TryMoment {
                        engine: *engine,
                        env: *env,
                        hashes: hashes@,
                        goals: goals@,
                    })
                },
        decreases tries@.len() - k,
    {
        let ghost here = TryMoment { engine: *engine, env: *env, hashes: hashes@, goals: goals@ };
        let ghost known = *hashes;
        let what = tries[k];
        let reply = try_replayed(engine, env, access, size_reg, what, &*hashes);
        let ghost answer = reply;
        match reply {
            Some(goal) => {
                hashes.push(goal.cond_hash);
                goals.push(goal);
            },
            None => {},
        }
        proof {
            let (moments, calls) = choose|moments: Seq<TryMoment<E>>, calls: Seq<TryCall<E>>|
                {
                    &&& #[trigger] tries_made(*access, size_reg, tries@.take(k as int), moments, calls)
                    &&& forall|i: int|
                        0 <= i < calls.len() ==> *final((#[trigger] calls[i]).engine) == moments[i
                            + 1].engine && *final(calls[i].env) == moments[i + 1].env
                    &&& moments[0] == (TryMoment {
                        engine: engine0,
                        env: env0,
                        hashes: hashes0,
                        goals: goals0,
                    })
                    &&& moments.last() == (TryMoment {
                        engine: here.engine,
                        env: here.env,
                        hashes: here.hashes,
                        goals: here.goals,
                    })
                };
            let (e, v) = choose|e: &mut E, v: &mut VerifierEnv|
                {
                    &&& #[trigger] call_ensures(
                        try_replayed::<E>,
                        (e, v, access, size_reg, what, &known),
                        answer,
                    )
                    &&& *e == here.engine
                    &&& *v == here.env
                    &&& *final(e) == *engine
                    &&& *final(v) == *env
                };
            let call = TryCall { engine: e, env: v, hashes: known, reply: answer };
            let now = TryMoment {
                engine: *engine,
                env: *env,
                hashes: hashes@,
                goals: goals@,
            };
            let moments1 = moments.push(now);
            let calls1 = calls.push(call);
            let taken = tries@.take(k + 1);
            assert(try_made(*access, size_reg, what, here, call, now));
            assert forall|i: int| 0 <= i < taken.len() implies try_made(
                *access,
                size_reg,
                taken[i],
                moments1[i],
                #[trigger] calls1[i],
                moments1[i + 1],
            ) by {
                if i < calls.len() {
                    assert(calls1[i] == calls[i]);
                    assert(tries@.take(k as int)[i] == taken[i]);
                    assert(moments1[i + 1] == moments[i + 1]);
                }
            }
            assert(tries_made(*access, size_reg, taken, moments1, calls1));
        }
        k += 1;
    }
    assert(tries@.take(k as int) =~= tries@);
}

/// Replays the path to an access from every rung in every way, and returns the
/// proofs that came of it. After that the last rung's path is cut where it comes by
/// the places of the rungs.
pub fn replayed_goals<E: Engine>(
    engine: &mut E,
    env: &mut VerifierEnv,
    state: &State,
    access: &MapAccess,
    size_reg: Option<Reg>,
    base: u32,
) -> (goals: Vec<ProvedGoal>)
    ensures
        replay_frame(*old(env), *final(env)),
        exists|
            e1: &mut E,
            v1: &mut VerifierEnv,
            first: Vec<Try>,
            h1: &mut Vec<u64>,
            g1: &mut Vec<ProvedGoal>,
            cuts: Vec<usize>,
            e2: &mut E,
            v2: &mut VerifierEnv,
            second: Vec<Try>,
            h2: &mut Vec<u64>,
            g2: &mut Vec<ProvedGoal>,
        |
            {
                let rungs = ladder(old(env).cache@, base, state.parent_cache_id);
                &&& first@ == rung_tries(rungs, rungs.len())
                &&& #[trigger] call_ensures(
                    try_all::<E>,
                    (e1, v1, access, size_reg, &first, h1, g1),
                    (),
                )
                &&& *e1 == *old(engine)
                &&& *v1 == *old(env)
                &&& (*h1)@ == bundle_hashes(old(env).bcf_proofs@)
                &&& (*g1)@.len() == 0
                &&& #[trigger] ascending(cuts@)
                &&& forall|pc: usize| #[trigger]
                    cuts@.contains(pc) <==> rung_stands_at(final(v1).cache@, rungs, pc)
                &&& second@ == cut_tries(rungs.last(), cuts@, cuts@.len())
                &&& #[trigger] call_ensures(
                    try_all::<E>,
                    (e2, v2, access, size_reg, &second, h2, g2),
                    (),
                )
                &&& *e2 == *final(e1)
                &&& *v2 == *final(v1)
                &&& (*h2)@ == (*final(h1))@
                &&& (*g2)@ == (*final(g1))@
                &&& *final(engine) == *final(e2)
                &&& *final(env) == *final(v2)
                &&& goals@ == (*final(g2))@
            },
{
    let rungs = rung_ids(&env.cache, base, state.parent_cache_id);
    let mut hashes = known_hashes(&env.bcf_proofs);
    let mut goals: Vec<ProvedGoal> = Vec::new();
    let first = list_rung_tries(&rungs);
    try_all(engine, env, access, size_reg, &first, &mut hashes, &mut goals);
    let deep: u32 = rungs[rungs.len() - 1];
    let cuts = cut_pcs(&env.cache, &rungs);
    let second = list_cut_tries(deep, &cuts);
    try_all(engine, env, access, size_reg, &second, &mut hashes, &mut goals);
    goals
}

/// Asks the engine where the path on which an access rests begins.
pub fn find_landing<E: Engine>(
    engine: &E,
    env: &VerifierEnv,
    state: &State,
    access: &MapAccess,
) -> (landed: Option<(usize, u32)>)
    ensures
        may_land(*engine, *env, *state, *access, landed),
{
    match state.history_idx {
        Some(step) => {
            let targets = map_target_regs(state, access.base, env.bcf_size_reg);
            let l = engine.suffix_base(env, step, state.parent_cache_id, &targets);
            assert(targets@ == map_targets(state@, access.base, env.bcf_size_reg));
            l
        },
        None => None,
    }
}

/// Tries to prove that an access to a map stays within the map, in the live state
/// and on replays of its path, and adds the proofs to the bundle. Returns whether
/// the access may go on. The checkpoints that a proof rests on no longer cover
/// later arrivals. While a path is replayed, only the live state counts, and the
/// run stays as it is.
pub fn try_bcf_refine_map<E: Engine>(
    engine: &mut E,
    env: &mut VerifierEnv,
    state: &State,
    access: MapAccess,
) -> (refined: bool)
    ensures
        final(env).counters == old(env).counters,
        final(env).error == old(env).error,
        state.bcf is None ==> {
            !refined && *final(engine) == *old(engine) && *final(env) == *old(env)
        },
        state.bcf is Some ==> exists|landed: Option<(usize, u32)>, direct: Option<ProvedGoal>|
            {
                &&& may_land(*old(engine), *old(env), *state, access, landed)
                &&& #[trigger] may_prove_directly(
                    *old(engine),
                    *old(env),
                    *state,
                    access,
                    landed,
                    direct,
                )
                &&& if old(env).replay_mode {
                    &&& refined == (direct is Some)
                    &&& *final(engine) == *old(engine)
                    &&& *final(env) == *old(env)
                } else {
                    exists|e: &mut E, v: &mut VerifierEnv, replayed: Vec<ProvedGoal>|
                        {
                            &&& #[trigger] call_ensures(
                                replays_from::<E>,
                                (e, v, state, &access, landed),
                                replayed,
                            )
                            &&& *e == *old(engine)
                            &&& *v == *old(env)
                            &&& *final(engine) == *final(e)
                            &&& refined == (direct is Some || replayed@.len() > 0)
                            &&& if !refined {
                                *final(env) == *final(v)
                            } else {
                                exists|m: &mut VerifierEnv, base: Option<u32>|
                                    {
                                        &&& #[trigger] call_ensures(
                                            mark_path_children_unsafe::<E>,
                                            (&*final(engine), m, state, base),
                                            (),
                                        )
                                        &&& base == landed_id(landed)
                                        &&& (*m).bcf_proofs@ == with_attempts(
                                            final(v).bcf_proofs@,
                                            direct,
                                            replayed@,
                                        )
                                        &&& *m == (VerifierEnv {
                                            bcf_proofs: (*m).bcf_proofs,
                                            ..*final(v)
                                        })
                                        &&& *final(env) == *final(m)
                                    }
                            }
                        }
                }
            },
{
    if state.bcf.is_none() {
        return false;
    }
    let size_reg = env.bcf_size_reg;
    let landed = find_landing(&*engine, &*env, state, &access);
    let base_pc: Option<usize> = match landed {
        Some(l) => Some(l.0),
        None => None,
    };
    let direct = engine.prove_map_access(state, &access, size_reg, base_pc, None);
    assert(may_prove_directly(*engine, *env, *state, access, landed, direct));
    if env.replay_mode {
        return direct.is_some();
    }
    let replayed = replays_from(engine, env, state, &access, landed);
    if direct.is_none() && replayed.len() == 0 {
        return false;
    }
    push_attempts(&mut env.bcf_proofs, direct, replayed);
    let base = match landed {
        Some((_, id)) => Some(id),
        None => None,
    };
    mark_path_children_unsafe(&*engine, env, state, base);
    true
}

/// The checkpoint at which a path begins.
pub open spec fn landed_id(landed: Option<(usize, u32)>) -> Option<u32> {
    match landed {
        Some(l) => Some(l.1),
        None => None,
    }
}

/// The goals of the replays, where there is a checkpoint to replay from.
pub fn replays_from<E: Engine>(
    engine: &mut E,
    env: &mut VerifierEnv,
    state: &State,
    access: &MapAccess,
    landed: Option<(usize, u32)>,
) -> (goals: Vec<ProvedGoal>)
    ensures
        replay_frame(*old(env), *final(env)),
        match landed_id(landed) {
            None => {
                goals@.len() == 0 && *final(engine) == *old(engine) && *final(env) == *old(env)
            },
            Some(id) => exists|e: &mut E, v: &mut VerifierEnv, size_reg: Option<Reg>|
                {
                    &&& #[trigger] call_ensures(
                        replayed_goals::<E>,
                        (e, v, state, access, size_reg, id),
                        goals,
                    )
                    &&& size_reg == old(env).bcf_size_reg
                    &&& *e == *old(engine)
                    &&& *v == *old(env)
                    &&& *final(engine) == *final(e)
                    &&& *final(env) == *final(v)
                },
        },
{
    let size_reg = env.bcf_size_reg;
    match landed {
        Some((_, id)) => replayed_goals(engine, env, state, access, size_reg, id),
        None => Vec::new(),
    }
}

}
