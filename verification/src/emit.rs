//! The proof bundle: which registers a proof is about, and how entries are
//! added.

use vstd::prelude::*;

use crate::ast::Reg;
use crate::cache::{apply_patch, changed_at, CacheData, Patch};
use crate::engine::Engine;
use crate::env::{BundleKind, ProvedGoal, RefineEntry, VerifierEnv};
use crate::machine::{NumericDomain, RegInfo, RegType, State, StateView};
use crate::pruning::{covers, differ_in_cache};

verus! {

/// The registers that a program computes with.
pub open spec fn var_regs() -> Seq<Reg> {
    seq![
        Reg::R0,
        Reg::R1,
        Reg::R2,
        Reg::R3,
        Reg::R4,
        Reg::R5,
        Reg::R6,
        Reg::R7,
        Reg::R8,
        Reg::R9,
    ]
}

/// Whether a pointer's offset varies. Only the interval domain keeps offsets.
pub open spec fn offset_varies(domain: NumericDomain, info: RegInfo) -> bool {
    domain is Interval && (info.ptr_offset matches Some(po) && po.min != po.max)
}

/// Whether a pointer's offset varies.
pub fn does_offset_vary(domain: &NumericDomain, info: &RegInfo) -> (r: bool)
    ensures
        r == offset_varies(*domain, *info),
{
    match (domain, info.ptr_offset) {
        (NumericDomain::Interval(_), Some(po)) => po.min != po.max,
        _ => false,
    }
}

/// Whether a proof of unreachability is about a register: it holds a number, or
/// a pointer whose offset varies.
pub open spec fn is_target(v: StateView, r: Reg) -> bool {
    let info = v.regs[r.spec_index()];
    info.ty == RegType::ScalarValue || (info.ty != RegType::NotInit && offset_varies(
        v.domain,
        info,
    ))
}

/// The registers that a proof of unreachability is about.
pub open spec fn target_regs(v: StateView) -> Seq<Reg> {
    var_regs().filter(|r: Reg| is_target(v, r))
}

/// The registers that a proof of unreachability is about.
pub fn unreachable_target_regs(state: &State) -> (r: Vec<Reg>)
    ensures
        r@ == target_regs(state@),
{
    let regs: [Reg; 10] = [
        Reg::R0,
        Reg::R1,
        Reg::R2,
        Reg::R3,
        Reg::R4,
        Reg::R5,
        Reg::R6,
        Reg::R7,
        Reg::R8,
        Reg::R9,
    ];
    assert(regs@ =~= var_regs());
    let ghost keep = |r: Reg| is_target(state@, r);
    let mut out: Vec<Reg> = Vec::new();
    let mut i: usize = 0;
    proof {
        reveal(Seq::filter);
        assert(var_regs().take(0) =~= Seq::<Reg>::empty());
    }
    while i < 10
        invariant
            i <= 10,
            regs@ == var_regs(),
            keep == (|r: Reg| is_target(state@, r)),
            out@ == var_regs().take(i as int).filter(keep),
        decreases 10 - i,
    {
        let r = regs[i];
        let info = state.reg(r);
        let target = match info.ty {
            RegType::NotInit => false,
            RegType::ScalarValue => true,
            _ => does_offset_vary(&state.domain, &info),
        };
        proof {
            let more = var_regs().take(i + 1);
            assert(more.drop_last() =~= var_regs().take(i as int));
            assert(more.last() == r);
            reveal(Seq::filter);
            assert(target == keep(r));
        }
        if target {
            out.push(r);
        }
        i += 1;
    }
    assert(var_regs().take(10) =~= var_regs());
    out
}

/// The step from which a rejected state is traced back: the one under way, else
/// the one that made the state.
pub open spec fn trace_step(env: VerifierEnv, state: State) -> Option<usize> {
    match env.current_step_idx {
        Some(i) => Some(i),
        None => state.history_idx,
    }
}

fn find_trace_step(env: &VerifierEnv, state: &State) -> (r: Option<usize>)
    ensures
        r == trace_step(*env, *state),
{
    match env.current_step_idx {
        Some(i) => Some(i),
        None => state.history_idx,
    }
}

/// Where the path on which a rejected state rests begins.
pub fn unreachable_base_pc<E: Engine>(engine: &E, env: &VerifierEnv, state: &State) -> (r: Option<
    usize,
>)
    ensures
        match trace_step(*env, *state) {
            None => r is None,
            Some(step) => exists|targets: Vec<Reg>| #[trigger]
                targets@ == target_regs(state@) && call_ensures(
                    E::suffix_base_pc,
                    (engine, env, step, state.parent_cache_id, &targets),
                    r,
                ),
        },
{
    match find_trace_step(env, state) {
        Some(step) => {
            let targets = unreachable_target_regs(state);
            let r = engine.suffix_base_pc(env, step, state.parent_cache_id, &targets);
            assert(targets@ == target_regs(state@));
            r
        },
        None => None,
    }
}

/// Where that path begins, and the checkpoint there.
pub fn unreachable_base<E: Engine>(engine: &E, env: &VerifierEnv, state: &State) -> (r: Option<
    (usize, u32),
>)
    ensures
        match trace_step(*env, *state) {
            None => r is None,
            Some(step) => exists|targets: Vec<Reg>| #[trigger]
                targets@ == target_regs(state@) && call_ensures(
                    E::suffix_base,
                    (engine, env, step, state.parent_cache_id, &targets),
                    r,
                ),
        },
{
    match find_trace_step(env, state) {
        Some(step) => {
            let targets = unreachable_target_regs(state);
            let r = engine.suffix_base(env, step, state.parent_cache_id, &targets);
            assert(targets@ == target_regs(state@));
            r
        },
        None => None,
    }
}

// ---------------------------------------------------------------------------
// Adding entries
// ---------------------------------------------------------------------------

/// Whether a bundle holds an entry with a hash.
pub open spec fn known(bundle: Seq<RefineEntry>, hash: u64) -> bool {
    exists|i: int| 0 <= i < bundle.len() && (#[trigger] bundle[i]).goal.cond_hash == hash
}

/// Whether a bundle holds an entry with a hash.
pub fn is_known(bundle: &Vec<RefineEntry>, hash: u64) -> (r: bool)
    ensures
        r == known(bundle@, hash),
{
    let mut i: usize = 0;
    while i < bundle.len()
        invariant
            i <= bundle@.len(),
            forall|j: int| 0 <= j < i ==> (#[trigger] bundle@[j]).goal.cond_hash != hash,
        decreases bundle@.len() - i,
    {
        if bundle[i].goal.cond_hash == hash {
            assert(bundle@[i as int].goal.cond_hash == hash);
            return true;
        }
        i += 1;
    }
    false
}

/// A bundle with one more goal, unless it holds one with the same hash.
pub open spec fn added(bundle: Seq<RefineEntry>, goal: ProvedGoal, kind: BundleKind) -> Seq<
    RefineEntry,
> {
    if known(bundle, goal.cond_hash) {
        bundle
    } else {
        bundle.push(RefineEntry { kind, goal })
    }
}

/// A bundle with more goals, each unless its hash is there already.
pub open spec fn all_added(bundle: Seq<RefineEntry>, goals: Seq<ProvedGoal>, kind: BundleKind) -> Seq<
    RefineEntry,
>
    decreases goals.len(),
{
    if goals.len() == 0 {
        bundle
    } else {
        all_added(added(bundle, goals[0], kind), goals.skip(1), kind)
    }
}

/// Adds a goal to a bundle, unless it holds one with the same hash.
pub fn push_unless_known(bundle: &mut Vec<RefineEntry>, goal: ProvedGoal, kind: BundleKind)
    ensures
        final(bundle)@ == added(old(bundle)@, goal, kind),
{
    if !is_known(&*bundle, goal.cond_hash) {
        bundle.push(RefineEntry { kind, goal });
    }
}

/// Whether a bundle grew out of another one: the old entries stay where they
/// are, the new ones are of the given kind, and none of them has a hash that an
/// earlier entry has.
pub open spec fn grown(old_bundle: Seq<RefineEntry>, bundle: Seq<RefineEntry>, kind: BundleKind) -> bool {
    &&& old_bundle.len() <= bundle.len()
    &&& old_bundle == bundle.take(old_bundle.len() as int)
    &&& forall|i: int|
        old_bundle.len() <= i < bundle.len() ==> (#[trigger] bundle[i]).kind == kind && !known(
            bundle.take(i),
            bundle[i].goal.cond_hash,
        )
}

/// A bundle has grown out of itself.
pub proof fn lemma_grown_same(bundle: Seq<RefineEntry>, kind: BundleKind)
    ensures
        grown(bundle, bundle, kind),
{
    assert(bundle.take(bundle.len() as int) =~= bundle);
}

/// Adding a goal lets a bundle grow.
pub proof fn lemma_grown_added(
    old_bundle: Seq<RefineEntry>,
    bundle: Seq<RefineEntry>,
    goal: ProvedGoal,
    kind: BundleKind,
)
    requires
        grown(old_bundle, bundle, kind),
    ensures
        grown(old_bundle, added(bundle, goal, kind), kind),
{
    let next = added(bundle, goal, kind);
    assert(next.take(bundle.len() as int) =~= bundle);
    assert(old_bundle =~= next.take(old_bundle.len() as int));
    assert forall|i: int| old_bundle.len() <= i < next.len() implies (#[trigger] next[i]).kind
        == kind && !known(next.take(i), next[i].goal.cond_hash) by {
        if i < bundle.len() {
            assert(next[i] == bundle[i]);
            assert(next.take(i) =~= bundle.take(i));
        } else {
            assert(next.take(i) =~= bundle);
        }
    }
}

/// Adding goals lets a bundle grow.
pub proof fn lemma_grown_all_added(
    old_bundle: Seq<RefineEntry>,
    bundle: Seq<RefineEntry>,
    goals: Seq<ProvedGoal>,
    kind: BundleKind,
)
    requires
        grown(old_bundle, bundle, kind),
    ensures
        grown(old_bundle, all_added(bundle, goals, kind), kind),
    decreases goals.len(),
{
    if goals.len() > 0 {
        lemma_grown_added(old_bundle, bundle, goals[0], kind);
        lemma_grown_all_added(old_bundle, added(bundle, goals[0], kind), goals.skip(1), kind);
    }
}

/// Adds goals to a bundle, each unless its hash is there already.
pub fn push_all_unless_known(
    bundle: &mut Vec<RefineEntry>,
    goals: Vec<ProvedGoal>,
    kind: BundleKind,
)
    ensures
        final(bundle)@ == all_added(old(bundle)@, goals@, kind),
{
    let ghost whole = all_added(bundle@, goals@, kind);
    let mut rest = goals;
    while rest.len() > 0
        invariant
            all_added(bundle@, rest@, kind) == whole,
        decreases rest@.len(),
    {
        let ghost r0 = rest@;
        let goal = rest.remove(0);
        assert(rest@ =~= r0.skip(1));
        push_unless_known(bundle, goal, kind);
    }
}

// ---------------------------------------------------------------------------
// Marking
// ---------------------------------------------------------------------------

/// The mark that keeps later arrivals from being pruned against a checkpoint.
pub open spec fn unsafe_patch() -> Patch {
    Patch { children_unsafe: Some(true), cleaned: None, branches: None, dfs_paths: None }
}

/// Whether the given checkpoints got the mark, and nothing else has changed.
pub open spec fn marked_unsafe(before: CacheData, after: CacheData, ids: Seq<u32>) -> bool {
    changed_at(before, after, ids, |s: State| apply_patch(s, unsafe_patch()))
}

/// Marks the given checkpoints, so that later arrivals are not pruned against
/// them.
pub fn mark_unsafe(env: &mut VerifierEnv, ids: &Vec<u32>)
    ensures
        differ_in_cache(*old(env), *final(env)),
        marked_unsafe(old(env).cache@, final(env).cache@, ids@),
{
    let ghost c0 = env.cache@;
    let ghost env0 = *env;
    let mut i: usize = 0;
    assert(ids@.take(0) =~= Seq::<u32>::empty());
    while i < ids.len()
        invariant
            i <= ids@.len(),
            differ_in_cache(env0, *env),
            marked_unsafe(c0, env.cache@, ids@.take(i as int)),
        decreases ids@.len() - i,
    {
        let ghost c1 = env.cache@;
        let ghost done = ids@.take(i as int);
        let ghost next = ids@.take(i + 1);
        env.cache.patch(
            ids[i],
            Patch { children_unsafe: Some(true), cleaned: None, branches: None, dfs_paths: None },
        );
        proof {
            assert forall|id: u32| next.contains(id) == (done.contains(id) || id == ids@[i as int]) by {
                if next.contains(id) {
                    let m = choose|m: int| 0 <= m < next.len() && next[m] == id;
                    if m < i {
                        assert(done[m] == id);
                    }
                }
                if done.contains(id) {
                    let m = choose|m: int| 0 <= m < done.len() && done[m] == id;
                    assert(next[m] == id);
                }
                assert(next[i as int] == ids@[i as int]);
            }
            let c2 = env.cache@;
            assert forall|q: usize, k: int|
                0 <= k < c2.bucket(q).len() implies #[trigger] c2.bucket(q)[k] == (
            if c0.bucket(q)[k].cache_id matches Some(id) && next.contains(id) {
                apply_patch(c0.bucket(q)[k], unsafe_patch())
            } else {
                c0.bucket(q)[k]
            }) by {
                assert(c1.bucket(q).len() == c0.bucket(q).len());
                let x = c1.bucket(q)[k];
            }
            assert forall|id: u32| #[trigger] c2.resolve(id) == (if next.contains(id) {
                match c0.resolve(id) {
                    Some(e) => Some((e.0, apply_patch(e.1, unsafe_patch()))),
                    None => None,
                }
            } else {
                c0.resolve(id)
            }) by {
                let x = c1.resolve(id);
            }
        }
        i += 1;
    }
    assert(ids@.take(i as int) =~= ids@);
}

/// Marks the checkpoints between a state and the base of its proof.
pub fn mark_path_children_unsafe<E: Engine>(
    engine: &E,
    env: &mut VerifierEnv,
    state: &State,
    base: Option<u32>,
)
    ensures
        differ_in_cache(*old(env), *final(env)),
        exists|ids: Vec<u32>| #[trigger]
            marked_unsafe(old(env).cache@, final(env).cache@, ids@) && call_ensures(
                E::parents_in_proof,
                (engine, old(env), state, base),
                ids,
            ),
{
    let ids = engine.parents_in_proof(&*env, state, base);
    mark_unsafe(env, &ids);
}

// ---------------------------------------------------------------------------
// Laws
// ---------------------------------------------------------------------------

/// A bundle only grows: whatever goals are added, its old entries stay where they
/// are, and no new entry repeats a hash.
pub proof fn law_bundles_only_grow(
    bundle: Seq<RefineEntry>,
    goals: Seq<ProvedGoal>,
    kind: BundleKind,
)
    ensures
        grown(bundle, all_added(bundle, goals, kind), kind),
{
    lemma_grown_same(bundle, kind);
    lemma_grown_all_added(bundle, bundle, goals, kind);
}

/// Adding a goal twice is adding it once.
pub proof fn law_adding_twice(bundle: Seq<RefineEntry>, goal: ProvedGoal, kind: BundleKind)
    ensures
        added(added(bundle, goal, kind), goal, kind) == added(bundle, goal, kind),
        known(added(bundle, goal, kind), goal.cond_hash),
{
    let once = added(bundle, goal, kind);
    if !known(bundle, goal.cond_hash) {
        assert(once[bundle.len() as int].goal.cond_hash == goal.cond_hash);
    }
}

/// A checkpoint that got the mark covers no later arrival.
pub proof fn law_marked_checkpoints_cover_nothing(
    before: CacheData,
    after: CacheData,
    ids: Seq<u32>,
    pc: usize,
    state: State,
    subsumes: Seq<bool>,
    i: int,
)
    requires
        after.wf(),
        marked_unsafe(before, after, ids),
        0 <= i < after.bucket(pc).len(),
        after.bucket(pc)[i].cache_id matches Some(id) && ids.contains(id),
    ensures
        !covers(after.bucket(pc), state, subsumes, i),
{
    let id = after.bucket(pc)[i].cache_id->0;
    assert(after.loc_by_id@.contains_key(id));
    assert(after.resolve(id) == Some((pc, after.bucket(pc)[i])));
    assert(before.resolve(id) is Some);
}

}
