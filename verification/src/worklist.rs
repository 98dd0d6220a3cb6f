//! The worklist: paths are explored depth first, one instruction at a time.

use vstd::prelude::*;

use crate::arith::is_sum_aligned;
use crate::ast::{Instr, Program, Reg};
use crate::cache::{
    apply_patch, as_checkpoint, changed_at, fresh_score, lemma_resolves_cached, saturated, Patch,
    StateCache,
};
use crate::engine::Engine;
use crate::env::{
    Annotation, Breadcrumb, Certificate, Counters, VerifierConfig, VerifierEnv,
};
use crate::machine::{RegType, StackSlot, StackSlotKind, State, VerificationError};
use crate::pruning::{
    adds_checkpoint, callsites, differ_in_cache, forces_checkpoint, sat32, should_prune,
    suppressed_in_loop,
};

verus! {

// ---------------------------------------------------------------------------
// Arrivals
// ---------------------------------------------------------------------------

/// Whether a register points into the stack.
pub open spec fn stack_base(state: State, r: Reg) -> bool {
    r == Reg::R10 || state@.regs[r.spec_index()].ty is PtrToStack
}

/// Whether a register points into the stack.
pub fn is_stack_base(state: &State, r: Reg) -> (b: bool)
    ensures
        b == stack_base(*state, r),
{
    r == Reg::R10 || match state.reg(r).ty {
        RegType::PtrToStack { .. } => true,
        _ => false,
    }
}

/// Whether a store through a stack pointer falls on the start of a slot, as far
/// as the pointer's distance to the frame pointer is known.
pub open spec fn on_slot_start(state: State, r: Reg, off: i16) -> bool {
    if r == Reg::R10 {
        off as int % 8 == 0
    } else {
        state@.regs[r.spec_index()].frame_distance matches Some(d) && (d + off) % 8 == 0
    }
}

fn is_on_slot_start(state: &State, r: Reg, off: i16) -> (b: bool)
    ensures
        b == on_slot_start(*state, r, off),
{
    if r == Reg::R10 {
        is_sum_aligned(0, off as i64)
    } else {
        match state.reg(r).frame_distance {
            Some(d) => is_sum_aligned(d, off as i64),
            None => false,
        }
    }
}

/// The first slot at an offset.
pub open spec fn slot_at(slots: Seq<StackSlot>, off: i16) -> Option<StackSlot>
    decreases slots.len(),
{
    if slots.len() == 0 {
        None
    } else if slots[0].off == off {
        Some(slots[0])
    } else {
        slot_at(slots.skip(1), off)
    }
}

/// Whether the innermost frame holds a spilled register at an offset.
pub open spec fn spilled_at(state: State, off: i16) -> bool {
    state.frames@.len() > 0 && (slot_at(state.frames@.last().slots@, off) matches Some(s) && s.kind
        == StackSlotKind::Spill)
}

fn is_spilled_at(state: &State, off: i16) -> (b: bool)
    ensures
        b == spilled_at(*state, off),
{
    if state.frames.len() == 0 {
        return false;
    }
    let f = &state.frames[state.frames.len() - 1];
    let mut i: usize = 0;
    assert(f.slots@.skip(0) =~= f.slots@);
    while i < f.slots.len()
        invariant
            i <= f.slots@.len(),
            state.frames@.len() > 0,
            *f == state.frames@.last(),
            slot_at(f.slots@.skip(i as int), off) == slot_at(f.slots@, off),
        decreases f.slots@.len() - i,
    {
        assert(f.slots@.skip(i as int)[0] == f.slots@[i as int]);
        assert(f.slots@.skip(i as int).skip(1) =~= f.slots@.skip(i + 1));
        if f.slots[i].off == off {
            return f.slots[i].kind == StackSlotKind::Spill;
        }
        i += 1;
    }
    false
}

/// Whether an instruction spills a register to the stack or fills one from it.
pub open spec fn spills_or_fills(state: State, instr: Option<Instr>) -> bool {
    match instr {
        Some(Instr::Store { base, off }) => stack_base(state, base) && on_slot_start(
            state,
            base,
            off,
        ),
        Some(Instr::StoreRel { base, off }) => stack_base(state, base),
        Some(Instr::Load { base, off }) => stack_base(state, base) && spilled_at(state, off),
        Some(Instr::LoadAcq { base, off }) => stack_base(state, base) && spilled_at(state, off),
        _ => false,
    }
}

/// Whether an instruction spills a register to the stack or fills one from it.
pub fn is_spill_or_fill(state: &State, instr: &Option<Instr>) -> (r: bool)
    ensures
        r == spills_or_fills(*state, *instr),
{
    match instr {
        Some(Instr::Store { base, off }) => is_stack_base(state, *base) && is_on_slot_start(
            state,
            *base,
            *off,
        ),
        Some(Instr::StoreRel { base, .. }) => is_stack_base(state, *base),
        Some(Instr::Load { base, off }) => is_stack_base(state, *base) && is_spilled_at(
            state,
            *off,
        ),
        Some(Instr::LoadAcq { base, off }) => is_stack_base(state, *base) && is_spilled_at(
            state,
            *off,
        ),
        _ => false,
    }
}

/// Whether branch decisions are noted at `pc`.
pub open spec fn at_jmp_point(env: VerifierEnv, pc: usize) -> bool {
    pc < env.insn_aux@.len() && env.insn_aux@[pc as int].jmp_point
}

/// A state on arrival: one more instruction on its path, and one more branch
/// decision for a spill or fill and for a place where decisions are noted.
pub open spec fn arrived(env: VerifierEnv, prog: Program, state: State) -> State {
    let spills = if spills_or_fills(state, prog.spec_fetch(state.pc)) {
        1int
    } else {
        0
    };
    let jumps = if at_jmp_point(env, state.pc) {
        1int
    } else {
        0
    };
    State {
        path_insn_count: saturated(state.path_insn_count + 1) as usize,
        jmp_history_cnt: sat32(state.jmp_history_cnt + spills + jumps),
        ..state
    }
}

/// Notes the arrival of a state.
pub fn note_arrival(env: &VerifierEnv, prog: &Program, state: &mut State)
    ensures
        *final(state) == arrived(*env, *prog, *old(state)),
{
    let instr = prog.fetch(state.pc);
    let spills = is_spill_or_fill(&*state, &instr);
    state.path_insn_count = state.path_insn_count.saturating_add(1);
    if spills {
        state.jmp_history_cnt = state.jmp_history_cnt.saturating_add(1);
    }
    if state.pc < env.insn_aux.len() && env.insn_aux[state.pc].jmp_point {
        state.jmp_history_cnt = state.jmp_history_cnt.saturating_add(1);
    }
}

// ---------------------------------------------------------------------------
// Checkpoints
// ---------------------------------------------------------------------------

/// Whether an arrival becomes a checkpoint. Without the sparse cache every one
/// does. With it only those at prune points do, if they are forced or enough was
/// done since the last one; inside a loop much more has to be done.
pub open spec fn becomes_checkpoint(
    env: VerifierEnv,
    state: State,
    sparse: bool,
    at_prune_point: bool,
) -> bool {
    !sparse || (at_prune_point && (forces_checkpoint(env, state, state.pc) || (
    env.counters.worth_a_checkpoint() && !(env.saw_active_state_at_check
        && env.counters.too_early_in_loop()))))
}

/// Whether an arrival becomes a checkpoint.
pub fn wants_checkpoint(
    env: &VerifierEnv,
    state: &State,
    sparse: bool,
    at_prune_point: bool,
) -> (r: bool)
    ensures
        r == becomes_checkpoint(*env, *state, sparse, at_prune_point),
{
    let c = env.counters;
    let dj: usize = c.jmps_processed.saturating_sub(c.prev_jmps_processed);
    let di: usize = c.insn_processed.saturating_sub(c.prev_insn_processed);
    let force_new_state = env.force_checkpoint(state.pc) || state.jmp_history_cnt > 40;
    let loop_dampener = env.saw_active_state_at_check && !force_new_state && dj < 20 && di < 100;
    let outer_gate = !sparse || at_prune_point;
    let add_new_state = !sparse || force_new_state || (dj >= 2 && di >= 8 && !loop_dampener);
    outer_gate && add_new_state
}

/// A state behind the checkpoint that it became.
pub open spec fn behind_checkpoint(state: State, id: u32) -> State {
    State {
        parent_cache_id: Some(id),
        first_insn_idx: state.pc,
        prev_jmp_at_cache: state.path_jmp_count,
        prev_insn_at_cache: state.path_insn_count,
        jmp_history_cnt: 0,
        ..state
    }
}

/// The counters at a checkpoint.
pub open spec fn at_checkpoint(c: Counters) -> Counters {
    Counters {
        prev_jmps_processed: c.jmps_processed,
        prev_insn_processed: c.insn_processed,
        ..c
    }
}

/// Makes an arrival a checkpoint: `cached` is put into the cache, and the path
/// goes on behind it. Where the numbers of checkpoints have run out, nothing
/// happens.
pub fn take_checkpoint(env: &mut VerifierEnv, state: &mut State, cached: State, max: usize)
    ensures
        *final(env) == (VerifierEnv {
            cache: final(env).cache,
            counters: final(env).counters,
            ..*old(env)
        }),
        old(env).cache@.next_id == u32::MAX ==> *final(state) == *old(state) && final(env).cache@
            == old(env).cache@ && final(env).counters == old(env).counters,
        old(env).cache@.next_id < u32::MAX ==> {
            let id = old(env).cache@.next_id;
            let pc = old(state).pc;
            let cached1 = State { pc, ..cached };
            let full = old(env).cache@.bucket(pc).push(as_checkpoint(cached1, id));
            let gone = if 0 < max < full.len() {
                full.len() - max
            } else {
                0
            };
            &&& *final(state) == behind_checkpoint(*old(state), id)
            &&& final(env).counters == at_checkpoint(old(env).counters)
            &&& final(env).cache@.bucket(pc) == full.skip(gone)
            &&& final(env).cache@.scores(pc) == old(env).cache@.scores(pc).push(
                fresh_score(),
            ).skip(gone)
            &&& forall|q: usize|
                q != pc ==> #[trigger] final(env).cache@.bucket(q) == old(env).cache@.bucket(q)
            &&& forall|q: usize|
                q != pc ==> #[trigger] final(env).cache@.scores(q) == old(env).cache@.scores(q)
            &&& final(env).cache@.next_id == id + 1
            &&& final(env).cache@.evictions == saturated(old(env).cache@.evictions + gone)
            &&& forall|n: u32|
                #[trigger] final(env).cache@.resolve(n) == (if n == id {
                    Some((pc, as_checkpoint(cached1, id)))
                } else {
                    old(env).cache@.resolve(n)
                })
        },
{
    let mut cached = cached;
    cached.pc = state.pc;
    match env.cache.record(cached, max) {
        Some(id) => {
            state.parent_cache_id = Some(id);
            state.first_insn_idx = state.pc;
            state.prev_jmp_at_cache = state.path_jmp_count;
            state.prev_insn_at_cache = state.path_insn_count;
            state.jmp_history_cnt = 0;
            env.counters.prev_jmps_processed = env.counters.jmps_processed;
            env.counters.prev_insn_processed = env.counters.insn_processed;
        },
        None => {},
    }
}

// ---------------------------------------------------------------------------
// Steps
// ---------------------------------------------------------------------------

/// How many arrivals a run may process.
pub open spec fn insn_limit(env: VerifierEnv, config: VerifierConfig) -> usize {
    if env.bcf_enabled {
        config.bcf_max_insn
    } else {
        config.max_insn
    }
}

/// A run after a step was recorded in its history and made the one under way.
pub open spec fn step_recorded(
    before: VerifierEnv,
    after: VerifierEnv,
    state: State,
    instr: Instr,
) -> bool {
    &&& after == (VerifierEnv {
        history: after.history,
        current_step_idx: Some(before.history@.len() as usize),
        ..before
    })
    &&& after.history@.len() == before.history@.len() + 1
    &&& after.history@.drop_last() == before.history@
    &&& after.history@.last().pc == state.pc
    &&& after.history@.last().instr == instr
    &&& after.history@.last().parent_idx == state.history_idx
    &&& after.history@.last().num_frames == state.frames@.len()
    &&& after.history@.last().linked@.len() == 0
}

/// Records a step in the history and makes it the one under way.
pub fn record_step(env: &mut VerifierEnv, state: &State, instr: Instr) -> (step: usize)
    ensures
        step == old(env).history@.len(),
        step_recorded(*old(env), *final(env), *state, instr),
{
    let step: usize = env.history.len();
    env.history.push(
        Breadcrumb {
            pc: state.pc,
            instr,
            parent_idx: state.history_idx,
            num_frames: state.frames.len(),
            linked: Vec::new(),
        },
    );
    env.current_step_idx = Some(step);
    assert(env.history@.drop_last() =~= old(env).history@);
    step
}

/// A run after a jump instruction was counted; others do not count.
pub open spec fn jump_counted(env: VerifierEnv, instr: Instr) -> VerifierEnv {
    if instr.spec_is_jmp_class() {
        VerifierEnv {
            counters: Counters {
                jmps_processed: saturated(env.counters.jmps_processed + 1) as usize,
                ..env.counters
            },
            ..env
        }
    } else {
        env
    }
}

/// A state after a jump instruction was counted on its path.
pub open spec fn jump_counted_on(state: State, instr: Instr) -> State {
    if instr.spec_is_jmp_class() {
        State { path_jmp_count: saturated(state.path_jmp_count + 1) as usize, ..state }
    } else {
        state
    }
}

/// Counts a jump instruction; others do not count.
pub fn count_jump(env: &mut VerifierEnv, state: &mut State, instr: &Instr)
    ensures
        *final(env) == jump_counted(*old(env), *instr),
        *final(state) == jump_counted_on(*old(state), *instr),
{
    if instr.is_jmp_class() {
        env.counters.jmps_processed = env.counters.jmps_processed.saturating_add(1);
        state.path_jmp_count = state.path_jmp_count.saturating_add(1);
    }
}

/// A successor of a step, as it is put on the worklist.
pub open spec fn as_successor(s: State, step: usize, pc: usize, depth: u32) -> State {
    State {
        history_idx: Some(step),
        last_insn_idx: pc,
        dfs_depth: sat32(depth + 1),
        branches: 1,
        ..s
    }
}

/// Makes a state a successor of a step.
pub fn prepare_successor(s: &mut State, step: usize, pc: usize, depth: u32)
    ensures
        *final(s) == as_successor(*old(s), step, pc, depth),
{
    s.history_idx = Some(step);
    s.last_insn_idx = pc;
    s.dfs_depth = depth.saturating_add(1);
    s.branches = 1;
}

/// Those of the states that are, or are not, marked, in order.
pub open spec fn marked(states: Seq<State>, marks: Seq<bool>, wanted: bool) -> Seq<State>
    decreases states.len(),
{
    if states.len() == 0 {
        Seq::empty()
    } else {
        let rest = marked(states.skip(1), marks.skip(1), wanted);
        if marks[0] == wanted {
            seq![states[0]] + rest
        } else {
            rest
        }
    }
}

/// A worklist with the successors of a step. It is worked off from its end: the
/// first successor that does not go back comes first, and those that go back
/// come last.
pub open spec fn enqueued(work: Seq<State>, succs: Seq<State>, back: Seq<bool>) -> Seq<State> {
    work + marked(succs, back, true) + marked(succs, back, false).reverse()
}

/// Puts the successors of a step on the worklist.
pub fn enqueue(work: &mut Vec<State>, succs: Vec<State>, back: &Vec<bool>)
    requires
        succs@.len() == back@.len(),
    ensures
        final(work)@ == enqueued(old(work)@, succs@, back@),
{
    let ghost w0 = work@;
    let ghost s0 = succs@;
    let ghost b0 = back@;
    let mut rest = succs;
    let mut onward: Vec<State> = Vec::new();
    let n: usize = back.len();
    let mut i: usize = 0;
    proof {
        assert(b0.skip(0) =~= b0);
        assert(work@ + marked(rest@, b0.skip(0), true) =~= w0 + marked(s0, b0, true));
        assert(onward@ + marked(rest@, b0.skip(0), false) =~= marked(s0, b0, false));
    }
    while rest.len() > 0
        invariant
            i + rest@.len() == n,
            n == b0.len(),
            b0 == back@,
            work@ + marked(rest@, b0.skip(i as int), true) == w0 + marked(s0, b0, true),
            onward@ + marked(rest@, b0.skip(i as int), false) == marked(s0, b0, false),
        decreases rest@.len(),
    {
        let ghost r0 = rest@;
        let s = rest.remove(0);
        proof {
            assert(rest@ =~= r0.skip(1));
            assert(b0.skip(i as int).skip(1) =~= b0.skip(i + 1));
            assert(b0.skip(i as int)[0] == b0[i as int]);
            let yes = marked(rest@, b0.skip(i + 1), true);
            let no = marked(rest@, b0.skip(i + 1), false);
            assert(work@ + (seq![s] + yes) =~= work@.push(s) + yes);
            assert(onward@ + (seq![s] + no) =~= onward@.push(s) + no);
        }
        if back[i] {
            work.push(s);
        } else {
            onward.push(s);
        }
        i += 1;
    }
    proof {
        assert(work@ =~= w0 + marked(s0, b0, true));
        assert(onward@ =~= marked(s0, b0, false));
    }
    let ghost w1 = work@;
    let ghost all = onward@;
    assert(all.skip(0).reverse() =~= all.reverse());
    while onward.len() > 0
        invariant
            onward@.is_prefix_of(all),
            work@ == w1 + all.skip(onward@.len() as int).reverse(),
        decreases onward@.len(),
    {
        let ghost o0 = onward@;
        match onward.pop() {
            Some(s) => {
                proof {
                    assert(all[o0.len() - 1] == s);
                    assert(all.skip(o0.len() - 1).reverse() =~= all.skip(
                        o0.len() as int,
                    ).reverse().push(s));
                    assert(work@.push(s) =~= w1 + all.skip(o0.len() - 1).reverse());
                }
                work.push(s);
            },
            None => {},
        }
    }
    assert(all.skip(0) =~= all);
}

/// What a fork does to the checkpoint above it: every path but the first is a new
/// unfinished one.
pub open spec fn forked(s: State, more: u32) -> State {
    State {
        branches: sat32(s.branches + more),
        dfs_paths: sat32(s.dfs_paths + more),
        ..s
    }
}

/// A run after the new paths of a fork were counted on the checkpoint above it.
pub open spec fn fork_counted(
    before: VerifierEnv,
    after: VerifierEnv,
    parent: Option<u32>,
    paths: usize,
) -> bool {
    &&& differ_in_cache(before, after)
    &&& match parent {
        Some(id) if paths > 1 => changed_at(
            before.cache@,
            after.cache@,
            seq![id],
            |s: State| forked(s, (paths - 1) as u32),
        ),
        _ => after == before,
    }
}

/// Counts the new paths of a fork on the checkpoint above it.
pub fn count_fork(env: &mut VerifierEnv, parent: Option<u32>, paths: usize)
    ensures
        fork_counted(*old(env), *final(env), parent, paths),
{
    if paths <= 1 {
        return;
    }
    let more: u32 = #[verifier::truncate]
    ((paths - 1) as u32);
    let ghost change = |s: State| forked(s, (paths - 1) as u32);
    match parent {
        Some(id) => {
            let data = env.cache.data();
            let ghost c0 = *data;
            let counts: Option<(u32, u32)> = match data.state_by_cache_id(id) {
                Some((_, s)) => Some((s.branches, s.dfs_paths)),
                None => None,
            };
            proof {
                assert(seq![id].contains(id)) by {
                    assert(seq![id][0] == id);
                }
            }
            match counts {
                Some((branches, dfs_paths)) => {
                    let b: u32 = branches.saturating_add(more);
                    let d: u32 = dfs_paths.saturating_add(more);
                    let patch = Patch {
                        children_unsafe: None,
                        cleaned: None,
                        branches: Some(b),
                        dfs_paths: Some(d),
                    };
                    env.cache.patch(id, patch);
                    proof {
                        let c1 = env.cache@;
                        let (_, s0) = c0.resolve(id)->0;
                        assert(apply_patch(s0, patch) == forked(s0, more));
                        assert forall|q: usize, k: int|
                            0 <= k < c1.bucket(q).len() implies #[trigger] c1.bucket(q)[k] == (
                        if c0.bucket(q)[k].cache_id matches Some(n) && seq![id].contains(n) {
                            change(c0.bucket(q)[k])
                        } else {
                            c0.bucket(q)[k]
                        }) by {
                            if c0.bucket(q)[k].cache_id is Some {
                                lemma_resolves_cached(c0, q, k);
                            }
                        }
                        assert(changed_at(c0, c1, seq![id], change));
                    }
                },
                None => {
                    proof {
                        assert forall|q: usize, k: int|
                            0 <= k < c0.bucket(q).len() implies (#[trigger] c0.bucket(
                            q,
                        )[k]).cache_id != Some(id) by {
                            if c0.bucket(q)[k].cache_id is Some {
                                lemma_resolves_cached(c0, q, k);
                            }
                        }
                        assert(changed_at(c0, c0, seq![id], change));
                    }
                },
            }
        },
        None => {},
    }
}

// ---------------------------------------------------------------------------
// Certificates
// ---------------------------------------------------------------------------

/// The proofs that annotations offer at `pc`, in order.
pub open spec fn entries_at(annotations: Seq<Annotation>, pc: usize) -> Seq<u32>
    decreases annotations.len(),
{
    if annotations.len() == 0 {
        Seq::empty()
    } else {
        let earlier = entries_at(annotations.drop_last(), pc);
        if annotations.last().pc == pc {
            earlier + annotations.last().entries@
        } else {
            earlier
        }
    }
}

/// The proofs that a certificate offers at `pc`, in order.
pub fn certified_entries(cert: &Certificate, pc: usize) -> (r: Vec<u32>)
    ensures
        r@ == entries_at(cert.annotations@, pc),
{
    let mut out: Vec<u32> = Vec::new();
    let mut i: usize = 0;
    assert(cert.annotations@.take(0) =~= Seq::<Annotation>::empty());
    while i < cert.annotations.len()
        invariant
            i <= cert.annotations@.len(),
            out@ == entries_at(cert.annotations@.take(i as int), pc),
        decreases cert.annotations@.len() - i,
    {
        let a = &cert.annotations[i];
        proof {
            let more = cert.annotations@.take(i + 1);
            assert(more.drop_last() =~= cert.annotations@.take(i as int));
            assert(more.last() == *a);
        }
        if a.pc == pc {
            let ghost before = out@;
            let mut k: usize = 0;
            assert(before + a.entries@.take(0) =~= before);
            while k < a.entries.len()
                invariant
                    k <= a.entries@.len(),
                    out@ == before + a.entries@.take(k as int),
                decreases a.entries@.len() - k,
            {
                out.push(a.entries[k]);
                k += 1;
                assert(out@ =~= before + a.entries@.take(k as int));
            }
            assert(a.entries@.take(k as int) =~= a.entries@);
        }
        i += 1;
    }
    assert(cert.annotations@.take(i as int) =~= cert.annotations@);
    out
}

/// What the proofs that hold show, in order.
pub open spec fn shown(replies: Seq<Option<u64>>) -> Seq<u64>
    decreases replies.len(),
{
    if replies.len() == 0 {
        Seq::empty()
    } else {
        match replies.last() {
            Some(v) => shown(replies.drop_last()).push(v),
            None => shown(replies.drop_last()),
        }
    }
}

/// Whether the engine may have answered so about the given proofs.
pub open spec fn proofs_checked<E: Engine>(
    engine: E,
    env: VerifierEnv,
    prog: Program,
    pc: usize,
    entries: Seq<u32>,
    replies: Seq<Option<u64>>,
) -> bool {
    &&& replies.len() == entries.len()
    &&& forall|i: int|
        0 <= i < entries.len() ==> call_ensures(
            E::check_proof,
            (&engine, &env, &prog, pc, #[trigger] entries[i]),
            replies[i],
        )
}

/// Has the engine check the given proofs, and returns what those that hold show.
pub fn check_entries<E: Engine>(
    engine: &E,
    env: &VerifierEnv,
    prog: &Program,
    pc: usize,
    entries: &Vec<u32>,
) -> (r: Vec<u64>)
    ensures
        exists|replies: Seq<Option<u64>>| #[trigger]
            proofs_checked(*engine, *env, *prog, pc, entries@, replies) && r@ == shown(replies),
{
    let mut out: Vec<u64> = Vec::new();
    let ghost mut replies: Seq<Option<u64>> = Seq::empty();
    let mut k: usize = 0;
    while k < entries.len()
        invariant
            k <= entries@.len(),
            replies.len() == k,
            out@ == shown(replies),
            forall|i: int|
                0 <= i < k ==> call_ensures(
                    E::check_proof,
                    (engine, env, prog, pc, #[trigger] entries@[i]),
                    replies[i],
                ),
        decreases entries@.len() - k,
    {
        let reply = engine.check_proof(env, prog, pc, entries[k]);
        proof {
            let before = replies;
            replies = replies.push(reply);
            assert(replies.drop_last() =~= before);
        }
        match reply {
            Some(v) => {
                out.push(v);
            },
            None => {},
        }
        k += 1;
    }
    assert(proofs_checked(*engine, *env, *prog, pc, entries@, replies));
    out
}

/// Narrows a successor of a step by what the certificate proves where it stands.
pub fn refine_successor<E: Engine>(
    engine: &E,
    env: &VerifierEnv,
    prog: &Program,
    cert: &Certificate,
    succ: State,
) -> (r: State)
    ensures
        exists|entries: Vec<u32>, verified: Vec<u64>, s: &mut State|
            {
                &&& entries@ == entries_at(cert.annotations@, succ.pc)
                &&& #[trigger] call_ensures(
                    check_entries::<E>,
                    (engine, env, prog, succ.pc, &entries),
                    verified,
                )
                &&& #[trigger] call_ensures(E::apply_refinements, (engine, s, &verified), ())
                &&& *s == succ
                &&& r == *final(s)
            },
{
    let entries = certified_entries(cert, succ.pc);
    let verified = check_entries(engine, env, prog, succ.pc, &entries);
    let mut out = succ;
    engine.apply_refinements(&mut out, &verified);
    out
}

/// Narrows the successors of a step by what the certificate proves where they
/// stand.
pub fn refine_by_certificate<E: Engine>(
    engine: &E,
    env: &VerifierEnv,
    prog: &Program,
    succs: Vec<State>,
) -> (r: Vec<State>)
    ensures
        match env.certificate {
            None => r@ == succs@,
            Some(cert) => {
                &&& r@.len() == succs@.len()
                &&& forall|i: int|
                    0 <= i < succs@.len() ==> call_ensures(
                        refine_successor::<E>,
                        (engine, env, prog, &cert, #[trigger] succs@[i]),
                        r@[i],
                    )
            },
        },
{
    match &env.certificate {
        None => succs,
        Some(cert) => {
            let ghost all = succs@;
            let mut rest = succs;
            let mut out: Vec<State> = Vec::new();
            assert(rest@ =~= all.skip(0));
            while rest.len() > 0
                invariant
                    out@.len() + rest@.len() == all.len(),
                    rest@ == all.skip(out@.len() as int),
                    env.certificate == Some(*cert),
                    forall|i: int|
                        0 <= i < out@.len() ==> call_ensures(
                            refine_successor::<E>,
                            (engine, env, prog, cert, #[trigger] all[i]),
                            out@[i],
                        ),
                decreases rest@.len(),
            {
                let s = rest.remove(0);
                assert(s == all[out@.len() as int]);
                let refined = refine_successor(engine, env, prog, cert, s);
                out.push(refined);
                assert(rest@ =~= all.skip(out@.len() as int));
            }
            out
        },
    }
}

// ---------------------------------------------------------------------------
// The exploration
// ---------------------------------------------------------------------------

/// What becomes of an arrival.
#[derive(Clone, Copy, Debug, PartialEq, Eq, Structural)]
pub enum Arrival {
    /// The run ends.
    Stop,
    /// The path ends here.
    Pruned,
    /// The instruction is executed.
    Explore,
}

/// Has the engine demote what conflicts with the cached states in an arriving
/// state. Only the coarser arithmetic needs that, and not at the last instruction.
pub fn adapt_types<E: Engine>(
    engine: &mut E,
    env: &VerifierEnv,
    state: &mut State,
    prog: &Program,
)
    ensures
        if !env.kernel_faithful_alu && old(state).pc + 1 < prog.instrs@.len() {
            exists|e: &mut E, s: &mut State|
                {
                    &&& #[trigger] call_ensures(E::resolve_type_conflicts, (e, env, s), ())
                    &&& *e == *old(engine)
                    &&& *s == *old(state)
                    &&& *final(engine) == *final(e)
                    &&& *final(state) == (State { pc: old(state).pc, ..*final(s) })
                }
        } else {
            *final(engine) == *old(engine) && *final(state) == *old(state)
        },
        final(state).pc == old(state).pc,
{
    let pc: usize = state.pc;
    if !env.kernel_faithful_alu && prog.instrs.len() > 0 && pc < prog.instrs.len() - 1 {
        engine.resolve_type_conflicts(env, state);
        state.pc = pc;
    }
}

/// Makes an arrival a checkpoint, if it becomes one: the engine brings a copy of
/// the state into the form in which it is cached.
pub fn checkpoint_arrival<E: Engine>(
    engine: &mut E,
    env: &mut VerifierEnv,
    state: &mut State,
    config: &VerifierConfig,
)
    ensures
        final(state).pc == old(state).pc,
        *final(env) == (VerifierEnv {
            cache: final(env).cache,
            counters: final(env).counters,
            ..*old(env)
        }),
        final(env).counters.insn_processed == old(env).counters.insn_processed,
        exists|at_prune_point: bool|
            {
                &&& #[trigger] call_ensures(
                    E::is_prune_point,
                    (&*old(engine), &*old(env), old(state).pc),
                    at_prune_point,
                )
                &&& if becomes_checkpoint(
                    *old(env),
                    *old(state),
                    config.kernel_engine || old(env).bcf_enabled,
                    at_prune_point,
                ) {
                    exists|
                        e: &mut E,
                        copy: State,
                        cached: State,
                        v: &mut VerifierEnv,
                        s: &mut State,
                    |
                        {
                            &&& #[trigger] call_ensures(
                                E::prepare_for_cache,
                                (e, &*old(env), copy),
                                cached,
                            )
                            &&& copy@ == old(state)@
                            &&& *e == *old(engine)
                            &&& *final(engine) == *final(e)
                            &&& #[trigger] call_ensures(
                                take_checkpoint,
                                (v, s, cached, config.max_states_per_pc),
                                (),
                            )
                            &&& *v == *old(env)
                            &&& *s == *old(state)
                            &&& *final(env) == *final(v)
                            &&& *final(state) == *final(s)
                        }
                } else {
                    &&& *final(engine) == *old(engine)
                    &&& *final(env) == *old(env)
                    &&& *final(state) == *old(state)
                }
            },
{
    let sparse = config.kernel_engine || env.bcf_enabled;
    let at_prune_point = engine.is_prune_point(&*env, state.pc);
    if wants_checkpoint(&*env, &*state, sparse, at_prune_point) {
        let copy = state.duplicate();
        let cached = engine.prepare_for_cache(&*env, copy);
        take_checkpoint(env, state, cached, config.max_states_per_pc);
    }
}

/// A run with one more arrival.
pub open spec fn arrival_counted(env: VerifierEnv) -> VerifierEnv {
    VerifierEnv {
        counters: Counters {
            insn_processed: (env.counters.insn_processed + 1) as usize,
            ..env.counters
        },
        ..env
    }
}

/// Decides what becomes of an arrival, which counts in any case. One that is
/// covered ends its path, and the engine is told so. Any other may become a
/// checkpoint; then it is explored, unless more arrivals were processed than may
/// be.
pub fn decide_arrival<E: Engine>(
    engine: &mut E,
    env: &mut VerifierEnv,
    prog: &Program,
    config: &VerifierConfig,
    state: &mut State,
) -> (r: Arrival)
    requires
        old(env).error is None,
        old(env).counters.insn_processed < usize::MAX,
    ensures
        final(state).pc == old(state).pc,
        final(env).bcf_enabled == old(env).bcf_enabled,
        final(env).history == old(env).history,
        final(env).bcf_proofs == old(env).bcf_proofs,
        final(env).bcf_path_unreachable == old(env).bcf_path_unreachable,
        final(env).counters.insn_processed == old(env).counters.insn_processed + 1,
        exists|e1: &mut E, v1: &mut VerifierEnv, pruned: bool|
            {
                &&& #[trigger] call_ensures(
                    should_prune::<E>,
                    (e1, v1, &*old(state), prog),
                    pruned,
                )
                &&& *e1 == *old(engine)
                &&& *v1 == arrival_counted(*old(env))
                &&& if pruned {
                    exists|e2: &mut E, c2: &mut StateCache, sites: Vec<usize>|
                        {
                            &&& #[trigger] call_ensures(
                                E::end_path,
                                (e2, c2, &sites, old(state).parent_cache_id),
                                (),
                            )
                            &&& sites@ == callsites(*old(state))
                            &&& *e2 == *final(e1)
                            &&& *c2 == final(v1).cache
                            &&& *final(engine) == *final(e2)
                            &&& *final(env) == (VerifierEnv {
                                cache: *final(c2),
                                ..*final(v1)
                            })
                            &&& *final(state) == *old(state)
                            &&& r == Arrival::Pruned
                        }
                } else {
                    exists|e2: &mut E, v2: &mut VerifierEnv, s2: &mut State|
                        {
                            &&& #[trigger] call_ensures(
                                checkpoint_arrival::<E>,
                                (e2, v2, s2, config),
                                (),
                            )
                            &&& *e2 == *final(e1)
                            &&& *v2 == *final(v1)
                            &&& *s2 == *old(state)
                            &&& *final(engine) == *final(e2)
                            &&& *final(state) == *final(s2)
                            &&& if final(v2).counters.insn_processed > insn_limit(
                                *old(env),
                                *config,
                            ) {
                                &&& r == Arrival::Stop
                                &&& *final(env) == (VerifierEnv {
                                    error: Some(
                                        VerificationError::ComplexityLimitExceeded {
                                            limit: insn_limit(*old(env), *config),
                                        },
                                    ),
                                    ..*final(v2)
                                })
                            } else {
                                r == Arrival::Explore && *final(env) == *final(v2)
                            }
                        }
                }
            },
        r == Arrival::Stop ==> final(env).error is Some,
        r == Arrival::Explore ==> final(env).error is None && final(env).counters.insn_processed
            <= insn_limit(*old(env), *config),
        r == Arrival::Pruned ==> final(env).error is None || final(env).error == Some(
            VerificationError::InfiniteLoopDetected { pc: old(state).pc },
        ),
{
    let limit: usize = if env.bcf_enabled {
        config.bcf_max_insn
    } else {
        config.max_insn
    };
    env.counters.insn_processed = env.counters.insn_processed + 1;
    assert(*env == arrival_counted(*old(env)));
    if should_prune(engine, env, &*state, prog) {
        let sites = callsites_of(&*state);
        engine.end_path(&mut env.cache, &sites, state.parent_cache_id);
        return Arrival::Pruned;
    }
    checkpoint_arrival(engine, env, state, config);
    if env.counters.insn_processed > limit {
        env.error = Some(VerificationError::ComplexityLimitExceeded { limit });
        return Arrival::Stop;
    }
    Arrival::Explore
}

/// Receives a state from the worklist. A run that has failed stops, and so does
/// one that reaches the second half of a wide load or that cannot count any
/// further. Else the engine adapts the state, and it is decided what becomes of
/// the arrival.
pub fn receive<E: Engine>(
    engine: &mut E,
    env: &mut VerifierEnv,
    prog: &Program,
    config: &VerifierConfig,
    state: &mut State,
) -> (r: Arrival)
    ensures
        final(state).pc == old(state).pc,
        final(env).bcf_enabled == old(env).bcf_enabled,
        final(env).history == old(env).history,
        final(env).bcf_proofs == old(env).bcf_proofs,
        !final(env).bcf_path_unreachable,
        old(env).error is Some ==> {
            &&& r == Arrival::Stop
            &&& *final(engine) == *old(engine)
            &&& *final(env) == (VerifierEnv { bcf_path_unreachable: false, ..*old(env) })
        },
        old(env).error is None && prog.invalid_pcs@.contains(old(state).pc) ==> {
            &&& r == Arrival::Stop
            &&& *final(engine) == *old(engine)
            &&& *final(env) == (VerifierEnv {
                bcf_path_unreachable: false,
                error: Some(VerificationError::InvalidBPFLoadImmInsn { pc: old(state).pc }),
                ..*old(env)
            })
        },
        old(env).error is None && !prog.invalid_pcs@.contains(old(state).pc) ==> exists|
            e1: &mut E,
            fresh: VerifierEnv,
            s1: &mut State,
        |
            {
                &&& #[trigger] call_ensures(adapt_types::<E>, (e1, &fresh, s1, prog), ())
                &&& fresh == (VerifierEnv { bcf_path_unreachable: false, ..*old(env) })
                &&& *e1 == *old(engine)
                &&& *s1 == arrived(*old(env), *prog, *old(state))
                &&& if old(env).counters.insn_processed == usize::MAX {
                    &&& r == Arrival::Stop
                    &&& *final(engine) == *final(e1)
                    &&& *final(env) == (VerifierEnv {
                        error: Some(
                            VerificationError::ComplexityLimitExceeded {
                                limit: insn_limit(*old(env), *config),
                            },
                        ),
                        ..fresh
                    })
                    &&& *final(state) == *final(s1)
                } else {
                    exists|e2: &mut E, v2: &mut VerifierEnv, s2: &mut State|
                        {
                            &&& #[trigger] call_ensures(
                                decide_arrival::<E>,
                                (e2, v2, prog, config, s2),
                                r,
                            )
                            &&& *e2 == *final(e1)
                            &&& *v2 == fresh
                            &&& *s2 == *final(s1)
                            &&& *final(engine) == *final(e2)
                            &&& *final(env) == *final(v2)
                            &&& *final(state) == *final(s2)
                        }
                }
            },
        old(env).error is None && !prog.invalid_pcs@.contains(old(state).pc) ==> {
            &&& final(env).counters.insn_processed == saturated(
                old(env).counters.insn_processed + 1,
            )
            &&& r != Arrival::Stop ==> final(env).counters.insn_processed == old(
                env,
            ).counters.insn_processed + 1
        },
        r == Arrival::Stop ==> final(env).error is Some,
        r == Arrival::Explore ==> final(env).error is None && final(env).counters.insn_processed
            <= insn_limit(*old(env), *config),
{
    let pc: usize = state.pc;
    note_arrival(&*env, prog, state);
    env.bcf_path_unreachable = false;
    if env.error.is_some() {
        return Arrival::Stop;
    }
    if prog.is_invalid_pc(pc) {
        env.error = Some(VerificationError::InvalidBPFLoadImmInsn { pc });
        return Arrival::Stop;
    }
    adapt_types(engine, &*env, state, prog);
    if env.counters.insn_processed == usize::MAX {
        let limit: usize = if env.bcf_enabled {
            config.bcf_max_insn
        } else {
            config.max_insn
        };
        env.error = Some(VerificationError::ComplexityLimitExceeded { limit });
        return Arrival::Stop;
    }
    decide_arrival(engine, env, prog, config, state)
}

/// Where the frames of a state return to.
pub fn callsites_of(state: &State) -> (r: Vec<usize>)
    ensures
        r@ == callsites(*state),
{
    let mut out: Vec<usize> = Vec::new();
    let mut i: usize = 0;
    while i < state.frames.len()
        invariant
            i <= state.frames@.len(),
            out@.len() == i,
            forall|j: int| 0 <= j < i ==> out@[j] == callsites(*state)[j],
        decreases state.frames@.len() - i,
    {
        out.push(state.frames[i].return_pc);
        i += 1;
    }
    assert(out@ =~= callsites(*state));
    out
}

/// Has the engine execute an instruction, and narrows what follows by the
/// certificate. The counters stay as they were.
pub fn execute_step<E: Engine>(
    engine: &mut E,
    env: &mut VerifierEnv,
    prog: &Program,
    state: State,
    instr: &Instr,
) -> (r: Vec<State>)
    ensures
        final(env).counters == old(env).counters,
        final(env).bcf_enabled == old(env).bcf_enabled,
        exists|
            e1: &mut E,
            s1: &mut State,
            e2: &mut E,
            v2: &mut VerifierEnv,
            entering: State,
            succs: Vec<State>,
            e3: &mut E,
        |
            {
                &&& #[trigger] call_ensures(E::begin_step, (e1, s1), ())
                &&& *e1 == *old(engine)
                &&& *s1 == state
                &&& #[trigger] call_ensures(E::transfer, (e2, v2, entering, instr), succs)
                &&& *e2 == *final(e1)
                &&& *v2 == *old(env)
                &&& entering == (State { pc: state.pc, ..*final(s1) })
                &&& #[trigger] call_ensures(E::end_step, (e3,), ())
                &&& *e3 == *final(e2)
                &&& *final(engine) == *final(e3)
                &&& *final(env) == (VerifierEnv {
                    counters: old(env).counters,
                    bcf_enabled: old(env).bcf_enabled,
                    ..*final(v2)
                })
                &&& call_ensures(
                    refine_by_certificate::<E>,
                    (&*final(engine), &*final(env), prog, succs),
                    r,
                )
            },
{
    let pc: usize = state.pc;
    let counters = env.counters;
    let bcf_enabled = env.bcf_enabled;
    let mut state = state;
    engine.begin_step(&mut state);
    state.pc = pc;
    let succs = engine.transfer(env, state, instr);
    env.counters = counters;
    env.bcf_enabled = bcf_enabled;
    engine.end_step();
    refine_by_certificate(&*engine, &*env, prog, succs)
}

/// The successors of a step, as they are put on the worklist.
pub open spec fn successors(succs: Seq<State>, step: usize, pc: usize, depth: u32) -> Seq<State> {
    succs.map_values(|s: State| as_successor(s, step, pc, depth))
}

/// Whether the engine may have said of the successors of a step that just the
/// marked ones go back to where the path has been. Where proofs are collected it is
/// not asked, and none is marked.
pub open spec fn back_edges<E: Engine>(
    engine: E,
    env: VerifierEnv,
    step: usize,
    ready: Seq<State>,
    back: Seq<bool>,
) -> bool {
    &&& back.len() == ready.len()
    &&& forall|i: int|
        0 <= i < ready.len() ==> if env.bcf_enabled {
            !(#[trigger] back[i])
        } else {
            call_ensures(E::is_back_edge, (&engine, &env, step, &ready[i]), back[i])
        }
}

/// What of a state is still needed once its instruction was executed.
pub struct Origin {
    pub pc: usize,
    pub dfs_depth: u32,
    pub parent: Option<u32>,
    /// Where the frames return to.
    pub sites: Vec<usize>,
}

/// Whether this is what is needed of a state.
pub open spec fn originates(o: Origin, state: State) -> bool {
    &&& o.pc == state.pc
    &&& o.dfs_depth == state.dfs_depth
    &&& o.parent == state.parent_cache_id
    &&& o.sites@ == callsites(state)
}

/// What of a state is still needed once its instruction was executed.
pub fn origin_of(state: &State) -> (r: Origin)
    ensures
        originates(r, *state),
{
    Origin {
        pc: state.pc,
        dfs_depth: state.dfs_depth,
        parent: state.parent_cache_id,
        sites: callsites_of(state),
    }
}

/// Settles a step that did not fail: its successors are put on the worklist, a
/// fork is counted on the checkpoint above it, and where nothing follows the engine
/// is told that the path has ended.
pub fn settle_step<E: Engine>(
    engine: &mut E,
    env: &mut VerifierEnv,
    work: &mut Vec<State>,
    succs: Vec<State>,
    step: usize,
    origin: &Origin,
)
    ensures
        differ_in_cache(*old(env), *final(env)),
        exists|back: Seq<bool>|
            {
                &&& #[trigger] back_edges(
                    *old(engine),
                    *old(env),
                    step,
                    successors(succs@, step, origin.pc, origin.dfs_depth),
                    back,
                )
                &&& final(work)@ == enqueued(
                    old(work)@,
                    successors(succs@, step, origin.pc, origin.dfs_depth),
                    back,
                )
            },
        if succs@.len() > 0 {
            &&& *final(engine) == *old(engine)
            &&& fork_counted(
                *old(env),
                *final(env),
                origin.parent,
                succs@.len() as usize,
            )
        } else {
            exists|e: &mut E, c: &mut StateCache|
                {
                    &&& #[trigger] call_ensures(
                        E::end_path,
                        (e, c, &origin.sites, origin.parent),
                        (),
                    )
                    &&& *e == *old(engine)
                    &&& *c == old(env).cache
                    &&& *final(engine) == *final(e)
                    &&& final(env).cache == *final(c)
                }
        },
{
    let pc: usize = origin.pc;
    let depth: u32 = origin.dfs_depth;
    let count: usize = succs.len();
    let ghost all = succs@;
    let ghost made = successors(all, step, pc, depth);
    let mut ready: Vec<State> = Vec::new();
    let mut back: Vec<bool> = Vec::new();
    let mut rest = succs;
    assert(rest@ =~= all.skip(0));
    assert(ready@ =~= made.take(0));
    while rest.len() > 0
        invariant
            *env == *old(env),
            *engine == *old(engine),
            made == successors(all, step, pc, depth),
            ready@.len() == back@.len(),
            ready@.len() + rest@.len() == all.len(),
            rest@ == all.skip(ready@.len() as int),
            ready@ == made.take(ready@.len() as int),
            forall|i: int|
                0 <= i < back@.len() ==> if env.bcf_enabled {
                    !(#[trigger] back@[i])
                } else {
                    call_ensures(E::is_back_edge, (&*engine, &*env, step, &made[i]), back@[i])
                },
        decreases rest@.len(),
    {
        let mut s = rest.remove(0);
        assert(s == all[ready@.len() as int]);
        prepare_successor(&mut s, step, pc, depth);
        assert(s == made[ready@.len() as int]);
        let goes_back = !env.bcf_enabled && engine.is_back_edge(&*env, step, &s);
        ready.push(s);
        back.push(goes_back);
        assert(rest@ =~= all.skip(ready@.len() as int));
        assert(ready@ =~= made.take(ready@.len() as int));
    }
    assert(ready@ =~= made);
    assert(back_edges(*engine, *env, step, made, back@));
    count_fork(env, origin.parent, count);
    if count == 0 {
        engine.end_path(&mut env.cache, &origin.sites, origin.parent);
    }
    enqueue(work, ready, &back);
}

/// Executes the instruction that a state stands at, and puts what follows on the
/// worklist. Behind the end of the program nothing is executed. Returns whether
/// the run goes on: it does unless the instruction has failed, and then nothing
/// is put on the worklist.
pub fn explore<E: Engine>(
    engine: &mut E,
    env: &mut VerifierEnv,
    prog: &Program,
    state: State,
    work: &mut Vec<State>,
) -> (goes_on: bool)
    ensures
        final(env).counters.insn_processed == old(env).counters.insn_processed,
        final(env).bcf_enabled == old(env).bcf_enabled,
        !goes_on ==> final(env).error is Some,
        state.pc >= prog.instrs@.len() ==> {
            &&& goes_on
            &&& *final(engine) == *old(engine)
            &&& *final(env) == *old(env)
            &&& final(work)@ == old(work)@
        },
        state.pc < prog.instrs@.len() ==> exists|
            instr: Instr,
            recorded: VerifierEnv,
            entering: State,
            e1: &mut E,
            v1: &mut VerifierEnv,
            succs: Vec<State>,
        |
            {
                &&& instr == prog.instrs@[state.pc as int]
                &&& #[trigger] step_recorded(*old(env), recorded, state, instr)
                &&& *e1 == *old(engine)
                &&& *v1 == jump_counted(recorded, instr)
                &&& entering == jump_counted_on(state, instr)
                &&& #[trigger] call_ensures(
                    execute_step::<E>,
                    (e1, v1, prog, entering, &instr),
                    succs,
                )
                &&& goes_on == (final(v1).error is None)
                &&& if !goes_on {
                    &&& *final(engine) == *final(e1)
                    &&& *final(env) == *final(v1)
                    &&& final(work)@ == old(work)@
                } else {
                    exists|
                        e2: &mut E,
                        v2: &mut VerifierEnv,
                        w2: &mut Vec<State>,
                        step: usize,
                        origin: Origin,
                    |
                        {
                            &&& #[trigger] call_ensures(
                                settle_step::<E>,
                                (e2, v2, w2, succs, step, &origin),
                                (),
                            )
                            &&& step == old(env).history@.len()
                            &&& originates(origin, state)
                            &&& *e2 == *final(e1)
                            &&& *v2 == *final(v1)
                            &&& (*w2)@ == old(work)@
                            &&& *final(engine) == *final(e2)
                            &&& *final(env) == *final(v2)
                            &&& final(work)@ == (*final(w2))@
                        }
                }
            },
{
    let pc: usize = state.pc;
    let instr = match prog.fetch(pc) {
        Some(i) => i,
        None => {
            return true;
        },
    };
    let origin = origin_of(&state);
    let step: usize = record_step(env, &state, instr);
    let ghost noted = *env;
    assert(step_recorded(*old(env), noted, state, instr));
    let mut state = state;
    count_jump(env, &mut state, &instr);
    let succs = execute_step(engine, env, prog, state, &instr);
    if env.error.is_some() {
        return false;
    }
    settle_step(engine, env, work, succs, step, &origin);
    true
}

/// Works off one state of the worklist: it is received, and explored if that is
/// decided. Returns whether the run goes on.
pub fn work_off<E: Engine>(
    engine: &mut E,
    env: &mut VerifierEnv,
    prog: &Program,
    config: &VerifierConfig,
    work: &mut Vec<State>,
    pruned: &mut usize,
) -> (goes_on: bool)
    requires
        old(work)@.len() > 0,
    ensures
        final(env).bcf_enabled == old(env).bcf_enabled,
        !goes_on ==> final(env).error is Some,
        old(env).error is Some ==> {
            &&& !goes_on
            &&& *final(engine) == *old(engine)
            &&& *final(env) == (VerifierEnv { bcf_path_unreachable: false, ..*old(env) })
            &&& *final(pruned) == *old(pruned)
        },
        old(env).error is None && prog.invalid_pcs@.contains(old(work)@.last().pc) ==> {
            &&& !goes_on
            &&& *final(engine) == *old(engine)
            &&& *final(env) == (VerifierEnv {
                bcf_path_unreachable: false,
                error: Some(VerificationError::InvalidBPFLoadImmInsn { pc: old(work)@.last().pc }),
                ..*old(env)
            })
            &&& *final(pruned) == *old(pruned)
        },
        old(env).error is None && !prog.invalid_pcs@.contains(old(work)@.last().pc)
            ==> final(env).counters.insn_processed == saturated(
            old(env).counters.insn_processed + 1,
        ),
        goes_on ==> final(env).counters.insn_processed == old(env).counters.insn_processed + 1,
        goes_on ==> final(env).counters.insn_processed <= insn_limit(*old(env), *config)
            || final(work)@.len() < old(work)@.len(),
        *old(pruned) <= *final(pruned),
        *final(pruned) - *old(pruned) <= final(env).counters.insn_processed
            - old(env).counters.insn_processed,
        exists|e1: &mut E, v1: &mut VerifierEnv, s1: &mut State, arrival: Arrival|
            {
                &&& #[trigger] call_ensures(receive::<E>, (e1, v1, prog, config, s1), arrival)
                &&& *e1 == *old(engine)
                &&& *v1 == *old(env)
                &&& *s1 == old(work)@.last()
                &&& match arrival {
                    Arrival::Stop => {
                        &&& !goes_on
                        &&& *final(engine) == *final(e1)
                        &&& *final(env) == *final(v1)
                        &&& final(work)@ == old(work)@.drop_last()
                        &&& *final(pruned) == *old(pruned)
                    },
                    Arrival::Pruned => {
                        &&& goes_on
                        &&& *final(engine) == *final(e1)
                        &&& *final(env) == *final(v1)
                        &&& final(work)@ == old(work)@.drop_last()
                        &&& *final(pruned) == saturated(*old(pruned) + 1)
                    },
                    Arrival::Explore => exists|
                        e2: &mut E,
                        v2: &mut VerifierEnv,
                        received: State,
                        w2: &mut Vec<State>,
                    |
                        {
                            &&& #[trigger] call_ensures(
                                explore::<E>,
                                (e2, v2, prog, received, w2),
                                goes_on,
                            )
                            &&& *e2 == *final(e1)
                            &&& *v2 == *final(v1)
                            &&& received == *final(s1)
                            &&& (*w2)@ == old(work)@.drop_last()
                            &&& *final(engine) == *final(e2)
                            &&& *final(env) == *final(v2)
                            &&& final(work)@ == (*final(w2))@
                            &&& *final(pruned) == *old(pruned)
                        },
                }
            },
{
    let ghost w0 = work@;
    let mut state = match work.pop() {
        Some(s) => s,
        None => {
            return false;
        },
    };
    assert(work@ =~= w0.drop_last());
    match receive(engine, env, prog, config, &mut state) {
        Arrival::Stop => false,
        Arrival::Pruned => {
            *pruned = pruned.saturating_add(1);
            true
        },
        Arrival::Explore => explore(engine, env, prog, state, work),
    }
}

/// A run between two rounds.
pub struct Moment<'c, E> {
    pub engine: E,
    pub env: VerifierEnv<'c>,
    pub work: Seq<State>,
    pub pruned: usize,
}

/// A round of a run: what was handed to `work_off`, and what it returned.
pub struct Round<'a, 'c, E> {
    pub engine: &'a mut E,
    pub env: &'a mut VerifierEnv<'c>,
    pub work: &'a mut Vec<State>,
    pub pruned: &'a mut usize,
    pub goes_on: bool,
}

/// Whether each round worked off a state at one of the given moments, and all but
/// the last let the run go on.
pub open spec fn rounds_made<E: Engine>(
    moments: Seq<Moment<E>>,
    rounds: Seq<Round<E>>,
    prog: Program,
    config: VerifierConfig,
) -> bool {
    &&& moments.len() == rounds.len() + 1
    &&& forall|i: int|
        0 <= i < rounds.len() ==> round_made(moments[i], #[trigger] rounds[i], prog, config)
    &&& forall|i: int| 0 <= i < rounds.len() - 1 ==> (#[trigger] rounds[i]).goes_on
}

/// Whether a round worked off a state at a moment.
pub open spec fn round_made<E: Engine>(
    moment: Moment<E>,
    round: Round<E>,
    prog: Program,
    config: VerifierConfig,
) -> bool {
    &&& moment.work.len() > 0
    &&& *round.engine == moment.engine
    &&& *round.env == moment.env
    &&& (*round.work)@ == moment.work
    &&& *round.pruned == moment.pruned
    &&& call_ensures(
        work_off::<E>,
        (round.engine, round.env, &prog, &config, round.work, round.pruned),
        round.goes_on,
    )
}

/// Explores every path from a state, and returns how many arrivals were pruned.
/// The run is a row of rounds, each of which works off the last state of the
/// worklist as the one before it left it. It ends where a round fails or where
/// nothing is left: a run without an error has left out no state. With every round
/// either the budget or the worklist shrinks, so it does end.
pub fn run_worklist<E: Engine>(
    engine: &mut E,
    env: &mut VerifierEnv,
    prog: &Program,
    config: &VerifierConfig,
    initial: State,
) -> (pruned: usize)
    ensures
        exists|moments: Seq<Moment<E>>, rounds: Seq<Round<E>>|
            {
                &&& #[trigger] rounds_made(moments, rounds, *prog, *config)
                &&& forall|i: int|
                    0 <= i < rounds.len() ==> {
                        &&& *final((#[trigger] rounds[i]).engine) == moments[i + 1].engine
                        &&& *final(rounds[i].env) == moments[i + 1].env
                        &&& (*final(rounds[i].work))@ == moments[i + 1].work
                        &&& *final(rounds[i].pruned) == moments[i + 1].pruned
                    }
                &&& moments[0] == (Moment {
                    engine: *old(engine),
                    env: *old(env),
                    work: seq![initial],
                    pruned: 0,
                })
                &&& moments.last().engine == *final(engine)
                &&& moments.last().env == *final(env)
                &&& moments.last().pruned == pruned
                &&& rounds.len() > 0
                &&& !rounds.last().goes_on || moments.last().work.len() == 0
                &&& final(env).error is None ==> moments.last().work.len() == 0
            },
        final(env).counters.insn_processed >= old(env).counters.insn_processed,
        pruned <= final(env).counters.insn_processed - old(env).counters.insn_processed,
        old(env).error is Some ==> pruned == 0 && *final(env) == (VerifierEnv {
            bcf_path_unreachable: false,
            ..*old(env)
        }),
        old(env).error is None && prog.invalid_pcs@.contains(initial.pc) ==> pruned == 0
            && *final(env) == (VerifierEnv {
            bcf_path_unreachable: false,
            error: Some(VerificationError::InvalidBPFLoadImmInsn { pc: initial.pc }),
            ..*old(env)
        }),
{
    let ghost env0 = *env;
    let ghost engine0 = *engine;
    let ghost initial0 = initial;
    let ghost limit = insn_limit(*env, *config);
    let mut work: Vec<State> = Vec::new();
    work.push(initial);
    let mut pruned: usize = 0;
    let mut goes_on = true;
    assert(work@ =~= seq![initial0]);
    proof {
        let first = Moment { engine: engine0, env: env0, work: seq![initial0], pruned: 0usize };
        let none = Seq::<Round<E>>::empty();
        assert(rounds_made(seq![first], none, *prog, *config));
    }
    while goes_on && work.len() > 0
        invariant
            env0 == *old(env),
            engine0 == *old(engine),
            initial0 == initial,
            env.bcf_enabled == env0.bcf_enabled,
            limit == insn_limit(env0, *config),
            env.counters.insn_processed >= env0.counters.insn_processed,
            pruned <= env.counters.insn_processed - env0.counters.insn_processed,
            !goes_on ==> env.error is Some,
            exists|moments: Seq<Moment<E>>, rounds: Seq<Round<E>>|
                {
                    &&& #[trigger] rounds_made(moments, rounds, *prog, *config)
                    &&& forall|i: int|
                        0 <= i < rounds.len() ==> {
                            &&& *final((#[trigger] rounds[i]).engine) == moments[i + 1].engine
                            &&& *final(rounds[i].env) == moments[i + 1].env
                            &&& (*final(rounds[i].work))@ == moments[i + 1].work
                            &&& *final(rounds[i].pruned) == moments[i + 1].pruned
                        }
                    &&& moments[0] == (Moment {
                        engine: engine0,
                        env: env0,
                        work: seq![initial0],
                        pruned: 0usize,
                    })
                    &&& moments.last() == (Moment {
                        engine: *engine,
                        env: *env,
                        work: work@,
                        pruned,
                    })
                    &&& goes_on ==> forall|i: int|
                        0 <= i < rounds.len() ==> (#[trigger] rounds[i]).goes_on
                    &&& !goes_on ==> rounds.len() > 0 && !rounds.last().goes_on
                    &&& rounds.len() == 0 ==> *env == env0 && work@ == seq![initial0] && goes_on
                    &&& rounds.len() > 0 && (env0.error is Some || prog.invalid_pcs@.contains(
                        initial0.pc,
                    )) ==> !goes_on && pruned == 0 && *env == (if env0.error is Some {
                        VerifierEnv { bcf_path_unreachable: false, ..env0 }
                    } else {
                        VerifierEnv {
                            bcf_path_unreachable: false,
                            error: Some(
                                VerificationError::InvalidBPFLoadImmInsn { pc: initial0.pc },
                            ),
                            ..env0
                        }
                    })
                },
        decreases
                (if goes_on {
                    1int
                } else {
                    0
                }),
                (if env.counters.insn_processed <= limit {
                    limit + 1 - env.counters.insn_processed
                } else {
                    0
                }),
                work@.len(),
    {
        let ghost here = Moment { engine: *engine, env: *env, work: work@, pruned };
        goes_on = work_off(engine, env, prog, config, &mut work, &mut pruned);
        proof {
            let (moments, rounds) = choose|moments: Seq<Moment<E>>, rounds: Seq<Round<E>>|
                {
                    &&& #[trigger] rounds_made(moments, rounds, *prog, *config)
                    &&& forall|i: int|
                        0 <= i < rounds.len() ==> {
                            &&& *final((#[trigger] rounds[i]).engine) == moments[i + 1].engine
                            &&& *final(rounds[i].env) == moments[i + 1].env
                            &&& (*final(rounds[i].work))@ == moments[i + 1].work
                            &&& *final(rounds[i].pruned) == moments[i + 1].pruned
                        }
                    &&& moments[0] == (Moment {
                        engine: engine0,
                        env: env0,
                        work: seq![initial0],
                        pruned: 0usize,
                    })
                    &&& moments.last() == here
                    &&& forall|i: int| 0 <= i < rounds.len() ==> (#[trigger] rounds[i]).goes_on
                    &&& rounds.len() == 0 ==> here.env == env0 && here.work == seq![initial0]
                    &&& rounds.len() > 0 ==> !(env0.error is Some || prog.invalid_pcs@.contains(
                        initial0.pc,
                    ))
                };
            let (e, v, w, p) = choose|
                e: &mut E,
                v: &mut VerifierEnv,
                w: &mut Vec<State>,
                p: &mut usize,
            |
                {
                    &&& #[trigger] call_ensures(
                        work_off::<E>,
                        (e, v, prog, config, w, p),
                        goes_on,
                    )
                    &&& *e == here.engine
                    &&& *v == here.env
                    &&& (*w)@ == here.work
                    &&& *p == here.pruned
                    &&& *final(e) == *engine
                    &&& *final(v) == *env
                    &&& (*final(w))@ == work@
                    &&& *final(p) == pruned
                };
            let round = Round { engine: e, env: v, work: w, pruned: p, goes_on };
            let now = Moment { engine: *engine, env: *env, work: work@, pruned };
            let moments1 = moments.push(now);
            let rounds1 = rounds.push(round);
            assert(round_made(here, round, *prog, *config));
            assert forall|i: int| 0 <= i < rounds1.len() implies round_made(
                moments1[i],
                #[trigger] rounds1[i],
                *prog,
                *config,
            ) by {
                if i < rounds.len() {
                    assert(rounds1[i] == rounds[i]);
                }
            }
            assert(rounds_made(moments1, rounds1, *prog, *config));
        }
    }
    pruned
}

// ---------------------------------------------------------------------------
// Laws
// ---------------------------------------------------------------------------

/// What an arrival becomes agrees with what its scan took it for: with the sparse
/// cache, an arrival at a prune point becomes a checkpoint exactly where the scan
/// started out to make it one and no unfinished candidate ended that.
pub proof fn law_checkpoints_agree_with_the_scan(env: VerifierEnv, state: State)
    ensures
        becomes_checkpoint(env, state, true, true) <==> adds_checkpoint(env, state, state.pc) && !(
        env.saw_active_state_at_check && suppressed_in_loop(env, state, state.pc)),
        !becomes_checkpoint(env, state, true, false),
        becomes_checkpoint(env, state, false, false),
{
}

/// Right behind a checkpoint nothing was done since, and nothing but a forced
/// instruction makes another one.
pub proof fn law_counting_starts_over(env: VerifierEnv, state: State, id: u32)
    requires
        !env.spec_force_checkpoint(state.pc),
    ensures
        at_checkpoint(env.counters).jmps() == 0,
        at_checkpoint(env.counters).insns() == 0,
        !becomes_checkpoint(
            VerifierEnv { counters: at_checkpoint(env.counters), ..env },
            behind_checkpoint(state, id),
            true,
            true,
        ),
{
}

/// Whether a mark is the first that is not set.
pub open spec fn first_unmarked(marks: Seq<bool>, i: int) -> bool {
    0 <= i < marks.len() && !marks[i] && forall|j: int| 0 <= j < i ==> marks[j]
}

/// The worklist is worked off depth first: what comes next is the first successor
/// that does not go back, and where all go back, the last of these.
pub proof fn law_depth_first(work: Seq<State>, succs: Seq<State>, back: Seq<bool>)
    requires
        succs.len() == back.len(),
        succs.len() > 0,
    ensures
        enqueued(work, succs, back).len() == work.len() + succs.len(),
        forall|i: int| #[trigger]
            first_unmarked(back, i) ==> enqueued(work, succs, back).last() == succs[i],
        (forall|j: int| 0 <= j < back.len() ==> back[j]) ==> enqueued(work, succs, back).last()
            == succs.last(),
{
    lemma_marked_len(succs, back);
    lemma_first_onward(succs, back);
    lemma_all_back(succs, back);
    let a = marked(succs, back, true);
    let b = marked(succs, back, false);
    assert forall|i: int| #[trigger] first_unmarked(back, i) implies enqueued(
        work,
        succs,
        back,
    ).last() == succs[i] by {
        assert(b.len() > 0 && b[0] == succs[i]);
        assert(b.reverse().last() == b[0]);
    }
    if forall|j: int| 0 <= j < back.len() ==> back[j] {
        assert(a =~= succs);
        assert(b.len() == 0);
        assert(enqueued(work, succs, back) =~= work + succs);
    }
}

proof fn lemma_marked_len(states: Seq<State>, marks: Seq<bool>)
    requires
        states.len() == marks.len(),
    ensures
        marked(states, marks, true).len() + marked(states, marks, false).len() == states.len(),
    decreases states.len(),
{
    if states.len() > 0 {
        lemma_marked_len(states.skip(1), marks.skip(1));
    }
}

proof fn lemma_first_onward(states: Seq<State>, marks: Seq<bool>)
    requires
        states.len() == marks.len(),
    ensures
        forall|i: int| #[trigger]
            first_unmarked(marks, i) ==> marked(states, marks, false).len() > 0 && marked(
                states,
                marks,
                false,
            )[0] == states[i],
    decreases states.len(),
{
    if states.len() > 0 {
        lemma_first_onward(states.skip(1), marks.skip(1));
        assert forall|i: int| #[trigger] first_unmarked(marks, i) implies marked(
            states,
            marks,
            false,
        ).len() > 0 && marked(states, marks, false)[0] == states[i] by {
            if i > 0 {
                assert(marks[0]);
                assert(states.skip(1)[i - 1] == states[i]);
                assert(first_unmarked(marks.skip(1), i - 1)) by {
                    assert forall|j: int| 0 <= j < i - 1 implies marks.skip(1)[j] by {
                        assert(marks[j + 1]);
                    }
                }
            }
        }
    }
}

proof fn lemma_all_back(states: Seq<State>, marks: Seq<bool>)
    requires
        states.len() == marks.len(),
    ensures
        (forall|j: int| 0 <= j < marks.len() ==> marks[j]) ==> marked(states, marks, true) == states
            && marked(states, marks, false).len() == 0,
    decreases states.len(),
{
    if states.len() > 0 {
        lemma_all_back(states.skip(1), marks.skip(1));
        if forall|j: int| 0 <= j < marks.len() ==> marks[j] {
            assert forall|j: int| 0 <= j < marks.skip(1).len() implies marks.skip(1)[j] by {
                assert(marks[j + 1]);
            }
            assert(marks[0]);
            assert(seq![states[0]] + states.skip(1) =~= states);
        }
    } else {
        assert(marked(states, marks, true) =~= states);
    }
}

}
