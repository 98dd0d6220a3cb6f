//! What holds of the exploration: what counts, what becomes a checkpoint, in which order
//! paths are followed, and where a run ends.

use vstd::prelude::*;

use crate::ast::{Instr, Program, Reg};
use crate::cache::StateCache;
use crate::engine::Engine;
use crate::env::{Annotation, Certificate, VerifierConfig, VerifierEnv};
use crate::machine::{StackSlot, State, VerificationError};
use crate::prune_laws::rank;
use crate::pruning::{callsites, should_prune};
use crate::worklist::{
    adapt_types, as_successor, back_edges, certified_entries, check_entries, count_fork, count_jump,
    decide_arrival, enqueue, enqueued, entries_at, execute_step, explore, marked, note_arrival,
    prepare_successor, proofs_checked, receive, record_step, refine_by_certificate,
    refine_successor, settle_step, shown, slot_at, spilled_at, successors, take_checkpoint,
    wants_checkpoint, work_off, Arrival, Origin,
};

verus! {

// ---------------------------------------------------------------------------
// Arrivals
// ---------------------------------------------------------------------------

/// Whether a register is known to point into the stack.
pub open spec fn into_stack(state: State, r: Reg) -> bool {
    r is R10 || state@.regs[r.spec_index()].ty is PtrToStack
}

/// Whether a store falls on the start of a stack slot.
pub open spec fn hits_slot_start(state: State, base: Reg, off: i16) -> bool {
    &&& into_stack(state, base)
    &&& base is R10 ==> off as int % 8 == 0
    &&& !(base is R10) ==> exists|d: i64|
        state@.regs[base.spec_index()].frame_distance == Some(d) && #[trigger] (d + off) % 8 == 0
}

/// Whether the first slot at an offset holds a spilled register.
pub open spec fn first_is_spill(slots: Seq<StackSlot>, off: i16) -> bool {
    exists|i: int|
        {
            &&& 0 <= i < slots.len()
            &&& (#[trigger] slots[i]).off == off
            &&& slots[i].kind is Spill
            &&& forall|j: int| 0 <= j < i ==> (#[trigger] slots[j]).off != off
        }
}

/// Whether the first slot at an offset of the innermost frame holds a spilled register.
pub open spec fn holds_spill(state: State, off: i16) -> bool {
    state.frames@.len() > 0 && first_is_spill(
        state.frames@[state.frames@.len() - 1].slots@,
        off,
    )
}

proof fn lemma_slot_at(slots: Seq<StackSlot>, off: i16)
    ensures
        match slot_at(slots, off) {
            Some(s) => exists|i: int|
                0 <= i < slots.len() && #[trigger] slots[i] == s && s.off == off && forall|j: int|
                    0 <= j < i ==> (#[trigger] slots[j]).off != off,
            None => forall|i: int| 0 <= i < slots.len() ==> (#[trigger] slots[i]).off != off,
        },
    decreases slots.len(),
{
    if slots.len() > 0 {
        let rest = slots.skip(1);
        lemma_slot_at(rest, off);
        if slots[0].off == off {
            assert(slots[0] == slot_at(slots, off)->0);
        } else {
            match slot_at(rest, off) {
                Some(s) => {
                    let i = choose|i: int|
                        0 <= i < rest.len() && #[trigger] rest[i] == s && s.off == off
                            && forall|j: int| 0 <= j < i ==> (#[trigger] rest[j]).off != off;
                    assert(slots[i + 1] == s);
                    assert forall|j: int| 0 <= j < i + 1 implies (#[trigger] slots[j]).off
                        != off by {
                        if j > 0 {
                            assert(rest[j - 1] == slots[j]);
                        }
                    }
                },
                None => {
                    assert forall|i: int| 0 <= i < slots.len() implies (#[trigger] slots[i]).off
                        != off by {
                        if i > 0 {
                            assert(rest[i - 1] == slots[i]);
                        }
                    }
                },
            }
        }
    }
}

/// Whether an instruction moves a register to the stack or back.
pub open spec fn moves_spill(state: State, instr: Instr) -> bool {
    match instr {
        Instr::Store { base, off } => hits_slot_start(state, base, off),
        Instr::StoreRel { base, off } => into_stack(state, base),
        Instr::Load { base, off } => into_stack(state, base) && holds_spill(state, off),
        Instr::LoadAcq { base, off } => into_stack(state, base) && holds_spill(state, off),
        _ => false,
    }
}

/// An arrival counts as one instruction on its path. It counts as a branch decision
/// where its instruction moves a register to the stack or back, and once more where
/// decisions are noted. Nothing else of the state changes.
pub proof fn law_arrivals_are_counted(env: VerifierEnv, prog: Program, state: &mut State)
    requires
        call_ensures(note_arrival, (&env, &prog, state), ()),
        state.path_insn_count < usize::MAX,
        state.jmp_history_cnt < u32::MAX - 1,
    ensures
        final(state).path_insn_count == old(state).path_insn_count + 1,
        final(state).jmp_history_cnt == old(state).jmp_history_cnt + (if old(state).pc
            < prog.instrs@.len() && moves_spill(*old(state), prog.instrs@[old(state).pc as int]) {
            1int
        } else {
            0
        }) + (if old(state).pc < env.insn_aux@.len() && env.insn_aux@[old(
            state,
        ).pc as int].jmp_point {
            1int
        } else {
            0
        }),
        *final(state) == (State {
            path_insn_count: final(state).path_insn_count,
            jmp_history_cnt: final(state).jmp_history_cnt,
            ..*old(state)
        }),
{
    let s = *state;
    if s.pc < prog.instrs@.len() {
        let instr = prog.instrs@[s.pc as int];
        match instr {
            Instr::Load { base, off } => lemma_spill(s, off),
            Instr::LoadAcq { base, off } => lemma_spill(s, off),
            Instr::Store { base, off } => {
                if !(base is R10) {
                    match s@.regs[base.spec_index()].frame_distance {
                        Some(d) => {
                            assert((d + off) % 8 == 0 || (d + off) % 8 != 0);
                        },
                        None => {},
                    }
                }
            },
            _ => {},
        }
    }
}

proof fn lemma_spill(state: State, off: i16)
    ensures
        spilled_at(state, off) == holds_spill(state, off),
{
    if state.frames@.len() > 0 {
        let slots = state.frames@[state.frames@.len() - 1].slots@;
        assert(slots == state.frames@.last().slots@);
        lemma_slot_at(slots, off);
    }
}

// ---------------------------------------------------------------------------
// Checkpoints
// ---------------------------------------------------------------------------

/// When an arrival becomes a checkpoint: without the sparse cache always; with it only
/// at prune points, always where the instruction asks for it or over forty branch
/// decisions were taken, and else once two jumps and eight instructions were processed
/// since the last one, unless an unfinished state was met before twenty jumps or a
/// hundred instructions.
pub proof fn law_checkpoints_are_wanted(
    env: VerifierEnv,
    state: State,
    sparse: bool,
    at_prune_point: bool,
    r: bool,
)
    requires
        call_ensures(wants_checkpoint, (&env, &state, sparse, at_prune_point), r),
    ensures
        !sparse ==> r,
        sparse && !at_prune_point ==> !r,
        ({
            let c = env.counters;
            let asked = state.pc < env.insn_aux@.len()
                && env.insn_aux@[state.pc as int].force_checkpoint;
            sparse && at_prune_point ==> (r <==> asked || state.jmp_history_cnt > 40 || (
            c.jmps_processed >= c.prev_jmps_processed + 2 && c.insn_processed
                >= c.prev_insn_processed + 8 && (env.saw_active_state_at_check ==> c.jmps_processed
                >= c.prev_jmps_processed + 20 || c.insn_processed >= c.prev_insn_processed + 100)))
        }),
{
}

/// A checkpoint is kept: what was handed in is found under the next number, as the
/// newest state where the arrival stands, with one unfinished path and no score. Of the
/// others the newest stay, as many as may be kept, with their scores; what leaves is
/// still found by its number. The path goes on behind the checkpoint, and what is
/// counted since the last one starts over.
pub proof fn law_checkpoints_are_kept(
    env: &mut VerifierEnv,
    state: &mut State,
    cached: State,
    max: usize,
)
    requires
        call_ensures(take_checkpoint, (env, state, cached, max), ()),
        env.cache@.next_id < u32::MAX,
        env.cache@.scores(state.pc).len() == env.cache@.bucket(state.pc).len(),
    ensures
        ({
            let id = old(env).cache@.next_id;
            let pc = old(state).pc;
            let was = old(env).cache@.bucket(pc);
            let is = final(env).cache@.bucket(pc);
            let scored = old(env).cache@.scores(pc);
            let scores = final(env).cache@.scores(pc);
            &&& final(env).cache@.next_id == id + 1
            &&& is.len() > 0 && scores.len() == is.len()
            &&& is.len() == if 0 < max <= was.len() {
                max as nat
            } else {
                was.len() + 1
            }
            &&& is[is.len() - 1] == (State {
                pc,
                cache_id: Some(id),
                branches: 1,
                dfs_paths: 1,
                ..cached
            })
            &&& scores[is.len() - 1].hit_cnt == 0 && scores[is.len() - 1].miss_cnt == 0
            &&& forall|i: int|
                #![trigger is[i]]
                0 <= i < is.len() - 1 ==> is[i] == was[i + was.len() + 1 - is.len()]
            &&& forall|i: int|
                #![trigger scores[i]]
                0 <= i < is.len() - 1 ==> scores[i] == scored[i + was.len() + 1 - is.len()]
            &&& final(env).cache@.resolve(id) == Some((pc, is[is.len() - 1]))
            &&& forall|n: u32|
                n != id ==> #[trigger] final(env).cache@.resolve(n) == old(env).cache@.resolve(n)
            &&& forall|q: usize|
                q != pc ==> #[trigger] final(env).cache@.bucket(q) == old(env).cache@.bucket(q)
            &&& final(state).parent_cache_id == Some(id)
            &&& final(state).pc == pc && final(state).first_insn_idx == pc
            &&& final(state).jmp_history_cnt == 0
            &&& final(state).prev_jmp_at_cache == old(state).path_jmp_count
            &&& final(state).prev_insn_at_cache == old(state).path_insn_count
            &&& final(state).path_jmp_count == old(state).path_jmp_count
            &&& final(state).path_insn_count == old(state).path_insn_count
            &&& final(state)@.regs == old(state)@.regs
            &&& final(env).counters.prev_jmps_processed == old(env).counters.jmps_processed
            &&& final(env).counters.prev_insn_processed == old(env).counters.insn_processed
            &&& final(env).counters.jmps_processed == old(env).counters.jmps_processed
            &&& final(env).counters.insn_processed == old(env).counters.insn_processed
        }),
{
}

// ---------------------------------------------------------------------------
// Steps
// ---------------------------------------------------------------------------

/// A step is recorded behind the ones before it, with the step it follows, and becomes
/// the one under way.
pub proof fn law_steps_are_recorded(env: &mut VerifierEnv, state: State, instr: Instr, step: usize)
    requires
        call_ensures(record_step, (env, &state, instr), step),
    ensures
        final(env).history@.len() == old(env).history@.len() + 1,
        step == old(env).history@.len(),
        final(env).current_step_idx == Some(step),
        forall|i: int|
            #![trigger final(env).history@[i]]
            0 <= i < step ==> final(env).history@[i] == old(env).history@[i],
        ({
            let new = final(env).history@[step as int];
            &&& new.pc == state.pc && new.instr == instr
            &&& new.parent_idx == state.history_idx
            &&& new.num_frames == state.frames@.len()
            &&& new.linked@.len() == 0
        }),
{
    let h = final(env).history@;
    assert forall|i: int| #![trigger h[i]] 0 <= i < step implies h[i] == (*env).history@[i] by {
        assert(h.drop_last()[i] == h[i]);
    }
}

/// Branches, jumps, calls and returns count as jumps, in the run and on the path;
/// nothing else does.
pub proof fn law_jumps_are_counted(env: &mut VerifierEnv, state: &mut State, instr: Instr)
    requires
        call_ensures(count_jump, (env, state, &instr), ()),
        env.counters.jmps_processed < usize::MAX,
        state.path_jmp_count < usize::MAX,
    ensures
        ({
            let one: int = match instr {
                Instr::If { .. } => 1,
                Instr::Jmp { .. } => 1,
                Instr::MayGoto { .. } => 1,
                Instr::Call { .. } => 1,
                Instr::CallRel { .. } => 1,
                Instr::Exit => 1,
                _ => 0,
            };
            &&& final(env).counters.jmps_processed == old(env).counters.jmps_processed + one
            &&& final(state).path_jmp_count == old(state).path_jmp_count + one
        }),
        final(env).counters.insn_processed == old(env).counters.insn_processed,
        final(env).counters.prev_jmps_processed == old(env).counters.prev_jmps_processed,
        final(env).counters.prev_insn_processed == old(env).counters.prev_insn_processed,
        *final(env) == (VerifierEnv { counters: final(env).counters, ..*old(env) }),
        *final(state) == (State { path_jmp_count: final(state).path_jmp_count, ..*old(state) }),
{
}

/// A successor follows its step: it stands one deeper than it, knows the step and the
/// instruction it came from, and is one unfinished path.
pub proof fn law_successors_follow_their_step(s: &mut State, step: usize, pc: usize, depth: u32)
    requires
        call_ensures(prepare_successor, (s, step, pc, depth), ()),
        depth < u32::MAX,
    ensures
        final(s).history_idx == Some(step),
        final(s).last_insn_idx == pc,
        final(s).dfs_depth == depth + 1,
        final(s).branches == 1,
        final(s).pc == old(s).pc,
        final(s).parent_cache_id == old(s).parent_cache_id,
        final(s)@.regs == old(s)@.regs,
        final(s)@.frames == old(s)@.frames,
{
}

// ---------------------------------------------------------------------------
// The order of exploration
// ---------------------------------------------------------------------------

proof fn lemma_marked(
    states: Seq<State>,
    marks: Seq<bool>,
    wanted: bool,
    base: int,
    at: spec_fn(int) -> bool,
)
    requires
        states.len() == marks.len(),
        base >= 0,
        forall|i: int| 0 <= i < marks.len() ==> #[trigger] at(base + i) == (marks[i] == wanted),
    ensures
        marked(states, marks, wanted).len() == rank(at, base + states.len()) - rank(at, base),
        forall|i: int|
            #![trigger states[i]]
            #![trigger marks[i]]
            0 <= i < states.len() && marks[i] == wanted ==> 0 <= rank(at, base + i) - rank(at, base)
                < marked(states, marks, wanted).len() && marked(states, marks, wanted)[rank(
                at,
                base + i,
            ) - rank(at, base)] == states[i],
    decreases states.len(),
{
    if states.len() > 0 {
        let s = states.skip(1);
        let m = marks.skip(1);
        assert forall|i: int| 0 <= i < m.len() implies #[trigger] at((base + 1) + i) == (m[i]
            == wanted) by {
            assert(at(base + (i + 1)) == (marks[i + 1] == wanted));
        }
        lemma_marked(s, m, wanted, base + 1, at);
        assert(at(base + 0) == (marks[0] == wanted));
        assert(rank(at, base + 1) == rank(at, base) + if at(base) {
            1nat
        } else {
            0
        });
        let rest = marked(s, m, wanted);
        let all = marked(states, marks, wanted);
        assert forall|i: int|
            #![trigger states[i]]
            #![trigger marks[i]]
            0 <= i < states.len() && marks[i] == wanted implies 0 <= rank(at, base + i) - rank(
            at,
            base,
        ) < all.len() && all[rank(at, base + i) - rank(at, base)] == states[i] by {
            if i > 0 {
                assert(s[i - 1] == states[i]);
                assert(m[i - 1] == marks[i]);
                let k = rank(at, (base + 1) + (i - 1)) - rank(at, base + 1);
                assert(rest[k] == states[i]);
                if at(base) {
                    assert(all[k + 1] == rest[k]);
                }
            } else {
                assert(all[0] == states[0]);
            }
        }
    }
}

/// The order of exploration: what was on the worklist stays below. The successors that
/// go back come next, in order; they are the last to be worked off. On top stand those
/// that go onward, the first of them uppermost, so it is worked off first.
pub proof fn law_onward_paths_come_first(
    work: &mut Vec<State>,
    succs: Vec<State>,
    back: Vec<bool>,
    goes_back: spec_fn(int) -> bool,
    goes_on: spec_fn(int) -> bool,
)
    requires
        call_ensures(enqueue, (work, succs, &back), ()),
        succs@.len() == back@.len(),
        forall|i: int| 0 <= i < back@.len() ==> #[trigger] goes_back(i) == back@[i],
        forall|i: int| 0 <= i < back@.len() ==> #[trigger] goes_on(i) == !back@[i],
    ensures
        final(work)@.len() == old(work)@.len() + succs@.len(),
        forall|i: int|
            #![trigger final(work)@[i]]
            0 <= i < old(work)@.len() ==> final(work)@[i] == old(work)@[i],
        forall|i: int|
            #![trigger succs@[i]]
            0 <= i < succs@.len() && back@[i] ==> final(work)@[(old(work)@.len() + rank(
                goes_back,
                i,
            )) as int] == succs@[i],
        forall|i: int|
            #![trigger succs@[i]]
            0 <= i < succs@.len() && !back@[i] ==> final(work)@[final(work)@.len() - 1 - rank(
                goes_on,
                i,
            )] == succs@[i],
{
    let s = succs@;
    let b = back@;
    let n = s.len() as int;
    let yes = marked(s, b, true);
    let no = marked(s, b, false);
    assert forall|i: int| 0 <= i < b.len() implies #[trigger] goes_back(0 + i) == (b[i]
        == true) by {
        assert(goes_back(i) == b[i]);
    }
    assert forall|i: int| 0 <= i < b.len() implies #[trigger] goes_on(0 + i) == (b[i] == false) by {
        assert(goes_on(i) == !b[i]);
    }
    lemma_marked(s, b, true, 0, goes_back);
    lemma_marked(s, b, false, 0, goes_on);
    lemma_ranks_add(goes_back, goes_on, b, n);
    let all = final(work)@;
    assert(all.len() == (*work)@.len() + yes.len() + no.len());
    assert forall|i: int|
        #![trigger s[i]]
        0 <= i < s.len() && b[i] implies all[((*work)@.len() + rank(goes_back, i)) as int]
            == s[i] by {
        assert(rank(goes_back, 0 + i) - rank(goes_back, 0) == rank(goes_back, i));
        assert(yes[rank(goes_back, i) as int] == s[i]);
    }
    assert forall|i: int|
        #![trigger s[i]]
        0 <= i < s.len() && !b[i] implies all[all.len() - 1 - rank(goes_on, i)] == s[i] by {
        assert(rank(goes_on, 0 + i) - rank(goes_on, 0) == rank(goes_on, i));
        let k = rank(goes_on, i) as int;
        assert(no[k] == s[i]);
        assert(no.reverse()[no.len() - 1 - k] == no[k]);
    }
}

proof fn lemma_ranks_add(
    a: spec_fn(int) -> bool,
    b: spec_fn(int) -> bool,
    marks: Seq<bool>,
    n: int,
)
    requires
        0 <= n <= marks.len(),
        forall|i: int| 0 <= i < marks.len() ==> #[trigger] a(i) == marks[i],
        forall|i: int| 0 <= i < marks.len() ==> #[trigger] b(i) == !marks[i],
    ensures
        rank(a, n) + rank(b, n) == n,
    decreases n,
{
    if n > 0 {
        lemma_ranks_add(a, b, marks, n - 1);
        assert(a(n - 1) == !b(n - 1));
    }
}

/// A fork is counted on the checkpoint above it: every path but the first is a new
/// unfinished one there. Every other checkpoint stays as it was, and so does every one
/// where a step has one successor or none.
pub proof fn law_forks_are_counted(env: &mut VerifierEnv, parent: Option<u32>, paths: usize, n: u32)
    requires
        call_ensures(count_fork, (env, parent, paths), ()),
        paths <= u32::MAX,
        env.cache@.resolve(n) matches Some(e) && e.1.branches + paths <= u32::MAX
            && e.1.dfs_paths + paths <= u32::MAX,
    ensures
        ({
            let was = old(env).cache@.resolve(n)->0;
            let more: int = if parent == Some(n) && paths > 1 {
                paths - 1
            } else {
                0
            };
            final(env).cache@.resolve(n) == Some(
                (
                    was.0,
                    (State {
                        branches: (was.1.branches + more) as u32,
                        dfs_paths: (was.1.dfs_paths + more) as u32,
                        ..was.1
                    }),
                ),
            )
        }),
        final(env).cache@.next_id == old(env).cache@.next_id,
        *final(env) == (VerifierEnv { cache: final(env).cache, ..*old(env) }),
{
    match parent {
        Some(id) => {
            assert(seq![id].contains(n) == (n == id)) by {
                assert(seq![id][0] == id);
            }
        },
        None => {},
    }
}

// ---------------------------------------------------------------------------
// Certificates
// ---------------------------------------------------------------------------

/// Proofs are offered in the order of the certificate: where one certificate continues
/// another one, what it offers at a place is what the first offers there, and then what
/// follows.
pub proof fn law_certificates_are_read_in_order(
    first: Certificate,
    then: Certificate,
    both: Certificate,
    pc: usize,
    a: Vec<u32>,
    b: Vec<u32>,
    r: Vec<u32>,
)
    requires
        both.annotations@ == first.annotations@ + then.annotations@,
        call_ensures(certified_entries, (&first, pc), a),
        call_ensures(certified_entries, (&then, pc), b),
        call_ensures(certified_entries, (&both, pc), r),
    ensures
        r@ == a@ + b@,
{
    lemma_entries_join(first.annotations@, then.annotations@, pc);
}

proof fn lemma_entries_join(a: Seq<Annotation>, b: Seq<Annotation>, pc: usize)
    ensures
        entries_at(a + b, pc) == entries_at(a, pc) + entries_at(b, pc),
    decreases b.len(),
{
    if b.len() == 0 {
        assert(a + b =~= a);
        assert(entries_at(a, pc) + entries_at(b, pc) =~= entries_at(a, pc));
    } else {
        lemma_entries_join(a, b.drop_last(), pc);
        assert((a + b).drop_last() =~= a + b.drop_last());
        assert((a + b).last() == b.last());
        assert(entries_at(a + b, pc) =~= entries_at(a, pc) + entries_at(b, pc));
    }
}

/// An annotation offers its proofs at its own place alone.
pub proof fn law_annotations_speak_of_their_place(cert: Certificate, pc: usize, r: Vec<u32>)
    requires
        cert.annotations@.len() == 1,
        call_ensures(certified_entries, (&cert, pc), r),
    ensures
        cert.annotations@[0].pc == pc ==> r@ == cert.annotations@[0].entries@,
        cert.annotations@[0].pc != pc ==> r@.len() == 0,
{
    let a = cert.annotations@;
    assert(a.drop_last().len() == 0);
    assert(entries_at(a.drop_last(), pc) == Seq::<u32>::empty());
    assert(a.last() == a[0]);
    assert(Seq::<u32>::empty() + a[0].entries@ =~= a[0].entries@);
}

proof fn lemma_shown(replies: Seq<Option<u64>>, holds: spec_fn(int) -> bool)
    requires
        forall|i: int| 0 <= i < replies.len() ==> #[trigger] holds(i) == (replies[i] is Some),
    ensures
        shown(replies).len() == rank(holds, replies.len() as int),
        forall|i: int|
            #![trigger replies[i]]
            #![trigger holds(i)]
            0 <= i < replies.len() && replies[i] is Some ==> rank(holds, i) < shown(replies).len()
                && shown(replies)[rank(holds, i) as int] == replies[i]->0,
    decreases replies.len(),
{
    if replies.len() > 0 {
        let before = replies.drop_last();
        assert forall|i: int| 0 <= i < before.len() implies #[trigger] holds(i) == (
        before[i] is Some) by {
            assert(holds(i) == (replies[i] is Some));
        }
        lemma_shown(before, holds);
        let n = replies.len() - 1;
        assert(holds(n) == (replies[n] is Some));
        assert(rank(holds, n + 1) == rank(holds, n) + if holds(n) {
            1nat
        } else {
            0
        });
        assert forall|i: int|
            #![trigger replies[i]]
            #![trigger holds(i)]
            0 <= i < replies.len() && replies[i] is Some implies rank(holds, i) < shown(
            replies,
        ).len() && shown(replies)[rank(holds, i) as int] == replies[i]->0 by {
            if i < n {
                assert(before[i] == replies[i]);
            }
        }
    }
}

/// What is shown was checked: each proof was put to the engine at the given place, and
/// what those that hold show comes out in their order, with nothing else.
pub proof fn law_shown_facts_were_checked<E: Engine>(
    engine: E,
    env: VerifierEnv,
    prog: Program,
    pc: usize,
    entries: Vec<u32>,
    r: Vec<u64>,
)
    requires
        call_ensures(check_entries::<E>, (&engine, &env, &prog, pc, &entries), r),
    ensures
        exists|replies: Seq<Option<u64>>, holds: spec_fn(int) -> bool|
            #![trigger rank(holds, replies.len() as int)]
            {
                &&& replies.len() == entries@.len()
                &&& r@.len() == rank(holds, replies.len() as int)
                &&& forall|i: int|
                    #![trigger replies[i]]
                    0 <= i < replies.len() ==> {
                        &&& call_ensures(
                            E::check_proof,
                            (&engine, &env, &prog, pc, entries@[i]),
                            replies[i],
                        )
                        &&& holds(i) == (replies[i] is Some)
                        &&& replies[i] is Some ==> r@[rank(holds, i) as int] == replies[i]->0
                    }
            },
{
    let replies = choose|replies: Seq<Option<u64>>| #[trigger]
        proofs_checked(engine, env, prog, pc, entries@, replies) && r@ == shown(replies);
    let holds = |i: int| replies[i] is Some;
    lemma_shown(replies, holds);
    assert forall|i: int|
        #![trigger replies[i]]
        0 <= i < replies.len() implies {
        &&& call_ensures(
            E::check_proof,
            (&engine, &env, &prog, pc, entries@[i]),
            replies[i],
        )
        &&& holds(i) == (replies[i] is Some)
        &&& replies[i] is Some ==> r@[rank(holds, i) as int] == replies[i]->0
    } by {}
    assert(r@.len() == rank(holds, replies.len() as int));
}

/// Whether the engine narrowed a state by what its checks of the proofs that a
/// certificate offers there have shown.
pub open spec fn narrowed<E: Engine>(
    engine: E,
    env: VerifierEnv,
    prog: Program,
    cert: Certificate,
    before: State,
    entries: Vec<u32>,
    verified: Vec<u64>,
    s: &mut State,
) -> bool {
    &&& *s == before
    &&& entries@ == entries_at(cert.annotations@, before.pc)
    &&& call_ensures(
        check_entries::<E>,
        (&engine, &env, &prog, before.pc, &entries),
        verified,
    )
    &&& call_ensures(E::apply_refinements, (&engine, s, &verified), ())
}

/// Successors are narrowed where they stand: without a certificate they stay as they
/// are; with one each is what the engine makes of it, in order, by the proofs that hold
/// of those that the certificate offers where it stands.
pub proof fn law_successors_are_narrowed_where_they_stand<E: Engine>(
    engine: E,
    env: VerifierEnv,
    prog: Program,
    succs: Vec<State>,
    r: Vec<State>,
    i: int,
)
    requires
        call_ensures(refine_by_certificate::<E>, (&engine, &env, &prog, succs), r),
        0 <= i < succs@.len(),
    ensures
        r@.len() == succs@.len(),
        env.certificate is None ==> r@[i] == succs@[i],
        env.certificate matches Some(cert) ==> exists|
            entries: Vec<u32>,
            verified: Vec<u64>,
            s: &mut State,
        |
            #[trigger] narrowed(engine, env, prog, cert, succs@[i], entries, verified, s)
                && r@[i] == *final(s),
{
    match env.certificate {
        Some(cert) => {
            let succ = succs@[i];
            assert(call_ensures(refine_successor::<E>, (&engine, &env, &prog, &cert, succ), r@[i]));
            let (entries, verified, s) = choose|
                entries: Vec<u32>,
                verified: Vec<u64>,
                s: &mut State,
            |
                {
                    &&& entries@ == entries_at(cert.annotations@, succ.pc)
                    &&& #[trigger] call_ensures(
                        check_entries::<E>,
                        (&engine, &env, &prog, succ.pc, &entries),
                        verified,
                    )
                    &&& #[trigger] call_ensures(E::apply_refinements, (&engine, s, &verified), ())
                    &&& *s == succ
                    &&& r@[i] == *final(s)
                };
            assert(narrowed(engine, env, prog, cert, succ, entries, verified, s));
        },
        None => {},
    }
}

// ---------------------------------------------------------------------------
// Limits and ends
// ---------------------------------------------------------------------------

/// A run explores no more arrivals than it may: each counts once, pruned or not. Within
/// the limit for runs that collect proofs, or for those that do not, an arrival is
/// explored or covered; beyond it the run fails, naming the limit, unless the arrival is
/// covered.
pub proof fn law_runs_stay_within_their_limit<E: Engine>(
    engine: &mut E,
    env: &mut VerifierEnv,
    prog: Program,
    config: VerifierConfig,
    state: &mut State,
    r: Arrival,
    limit: usize,
)
    requires
        call_ensures(decide_arrival::<E>, (engine, env, &prog, &config, state), r),
        env.error is None,
        env.counters.insn_processed < usize::MAX,
        env.bcf_enabled ==> limit == config.bcf_max_insn,
        !env.bcf_enabled ==> limit == config.max_insn,
    ensures
        final(env).counters.insn_processed == old(env).counters.insn_processed + 1,
        r == Arrival::Explore ==> old(env).counters.insn_processed < limit,
        r == Arrival::Explore ==> final(env).error is None,
        r == Arrival::Stop ==> old(env).counters.insn_processed >= limit && final(env).error
            == Some(VerificationError::ComplexityLimitExceeded { limit }),
        r == Arrival::Pruned ==> final(env).error is None || final(env).error == Some(
            VerificationError::InfiniteLoopDetected { pc: old(state).pc },
        ),
{
}

/// A path ends where it is covered: an arrival is given up where, and only where, it was
/// decided so by the candidates, and then the engine is told which path has ended, by its
/// calls and by the checkpoint above it.
pub proof fn law_covered_paths_end<E: Engine>(
    engine: &mut E,
    env: &mut VerifierEnv,
    prog: Program,
    config: VerifierConfig,
    state: &mut State,
    r: Arrival,
)
    requires
        call_ensures(decide_arrival::<E>, (engine, env, &prog, &config, state), r),
    ensures
        exists|e: &mut E, v: &mut VerifierEnv, pruned: bool|
            {
                &&& #[trigger] call_ensures(should_prune::<E>, (e, v, &*old(state), &prog), pruned)
                &&& *e == *old(engine)
                &&& pruned <==> r == Arrival::Pruned
            },
        r == Arrival::Pruned ==> exists|
            e: &mut E,
            c: &mut StateCache,
            sites: Vec<usize>,
        |
            {
                &&& #[trigger] call_ensures(
                    E::end_path,
                    (e, c, &sites, old(state).parent_cache_id),
                    (),
                )
                &&& final(env).cache == *final(c)
                &&& sites@.len() == old(state).frames@.len()
                &&& forall|i: int|
                    #![trigger sites@[i]]
                    0 <= i < sites@.len() ==> sites@[i] == old(state).frames@[i].return_pc
            },
{
    let (e1, v1, pruned) = choose|e1: &mut E, v1: &mut VerifierEnv, pruned: bool|
        {
            &&& #[trigger] call_ensures(should_prune::<E>, (e1, v1, &*state, &prog), pruned)
            &&& *e1 == *engine
            &&& pruned <==> r == Arrival::Pruned
            &&& pruned ==> exists|e2: &mut E, c2: &mut StateCache, sites: Vec<usize>|
                {
                    &&& #[trigger] call_ensures(
                        E::end_path,
                        (e2, c2, &sites, state.parent_cache_id),
                        (),
                    )
                    &&& sites@ == callsites(*state)
                    &&& *final(env) == (VerifierEnv { cache: *final(c2), ..*final(v1) })
                }
        };
}

/// A run stops where it must: once it has failed, and where control reaches the second
/// half of a wide load.
pub proof fn law_failed_runs_stop<E: Engine>(
    engine: &mut E,
    env: &mut VerifierEnv,
    prog: Program,
    config: VerifierConfig,
    state: &mut State,
    r: Arrival,
)
    requires
        call_ensures(receive::<E>, (engine, env, &prog, &config, state), r),
    ensures
        old(env).error is Some ==> r == Arrival::Stop && final(env).error == old(env).error
            && final(env).cache == old(env).cache,
        old(env).error is None && prog.invalid_pcs@.contains(old(state).pc) ==> r == Arrival::Stop
            && final(env).error == Some(
            VerificationError::InvalidBPFLoadImmInsn { pc: old(state).pc },
        ),
        r == Arrival::Explore ==> final(env).error is None && final(state).pc == old(state).pc,
        !final(env).bcf_path_unreachable,
{
}

/// The coarser arithmetic adapts: an arriving state is adapted to the cached ones where
/// arithmetic is not that of the kernel and the arrival is not at the last instruction,
/// and nowhere else.
pub proof fn law_types_are_adapted<E: Engine>(
    engine: &mut E,
    env: VerifierEnv,
    state: &mut State,
    prog: Program,
)
    requires
        call_ensures(adapt_types::<E>, (engine, &env, state, &prog), ()),
    ensures
        env.kernel_faithful_alu || old(state).pc + 1 >= prog.instrs@.len() ==> *final(state)
            == *old(state),
        !env.kernel_faithful_alu && old(state).pc + 1 < prog.instrs@.len() ==> exists|
            e: &mut E,
            s: &mut State,
        |
            #[trigger] call_ensures(E::resolve_type_conflicts, (e, &env, s), ()) && *s == *old(
                state,
            ) && *final(state) == (State { pc: old(state).pc, ..*final(s) }),
{
}

/// A path that has ended is reported: where a step has no successor, the engine is told
/// so, and where it has one, it is not. Every successor is on the worklist, a step
/// deeper than the one it follows.
pub proof fn law_settled_steps<E: Engine>(
    engine: &mut E,
    env: &mut VerifierEnv,
    work: &mut Vec<State>,
    succs: Vec<State>,
    step: usize,
    origin: Origin,
)
    requires
        call_ensures(settle_step::<E>, (engine, env, work, succs, step, &origin), ()),
    ensures
        succs@.len() > 0 ==> *final(engine) == *old(engine),
        succs@.len() == 0 ==> final(work)@ == old(work)@ && exists|
            e: &mut E,
            c: &mut StateCache,
        |
            #[trigger] call_ensures(E::end_path, (e, c, &origin.sites, origin.parent), ())
                && final(env).cache == *final(c),
        final(work)@.len() == old(work)@.len() + succs@.len(),
        old(env).bcf_enabled ==> forall|i: int|
            #![trigger succs@[i]]
            0 <= i < succs@.len() ==> {
                let s = final(work)@[final(work)@.len() - 1 - i];
                &&& s.history_idx == Some(step)
                &&& s.last_insn_idx == origin.pc
                &&& s.dfs_depth == if origin.dfs_depth < u32::MAX {
                    origin.dfs_depth + 1
                } else {
                    u32::MAX as int
                }
                &&& s.pc == succs@[i].pc
                &&& s@.regs == succs@[i]@.regs
            },
{
    let ready = successors(succs@, step, origin.pc, origin.dfs_depth);
    let back = choose|back: Seq<bool>|
        {
            &&& #[trigger] back_edges(*engine, *env, step, ready, back)
            &&& final(work)@ == enqueued((*work)@, ready, back)
        };
    lemma_enqueued((*work)@, ready, back);
    assert forall|i: int| #![trigger succs@[i]] 0 <= i < succs@.len() implies ready[i]
        == as_successor(succs@[i], step, origin.pc, origin.dfs_depth) by {}
}

proof fn lemma_enqueued(work: Seq<State>, ready: Seq<State>, back: Seq<bool>)
    requires
        ready.len() == back.len(),
    ensures
        enqueued(work, ready, back).len() == work.len() + ready.len(),
        ready.len() == 0 ==> enqueued(work, ready, back) == work,
        (forall|i: int| 0 <= i < back.len() ==> !#[trigger] back[i]) ==> forall|i: int|
            #![trigger ready[i]]
            0 <= i < ready.len() ==> enqueued(work, ready, back)[work.len() + ready.len() - 1 - i]
                == ready[i],
{
    let yes = |i: int| back[i];
    let no = |i: int| !back[i];
    lemma_marked(ready, back, true, 0, yes);
    lemma_marked(ready, back, false, 0, no);
    lemma_ranks_add(yes, no, back, back.len() as int);
    let all = enqueued(work, ready, back);
    if ready.len() == 0 {
        assert(all =~= work);
    }
    if forall|i: int| 0 <= i < back.len() ==> !#[trigger] back[i] {
        assert forall|i: int| 0 <= i < back.len() implies #[trigger] no(i) by {
            assert(!back[i]);
        }
        let on = marked(ready, back, false);
        lemma_rank_all(no, back.len() as int, back.len() as int);
        assert forall|i: int|
            #![trigger ready[i]]
            0 <= i < ready.len() implies all[all.len() - 1 - i] == ready[i] by {
            lemma_rank_all(no, i, back.len() as int);
            assert(!back[i]);
            assert(on[rank(no, 0 + i) - rank(no, 0)] == ready[i]);
            assert(on.reverse()[on.len() - 1 - i] == on[i]);
        }
    }
}

proof fn lemma_rank_all(p: spec_fn(int) -> bool, n: int, m: int)
    requires
        0 <= n <= m,
        forall|i: int| 0 <= i < m ==> #[trigger] p(i),
    ensures
        rank(p, n) == n,
    decreases n,
{
    if n > 0 {
        lemma_rank_all(p, n - 1, m);
    }
}

/// An instruction is executed where the state stands: behind the end of the program
/// nothing happens; elsewhere the instruction there is recorded as the next step, the
/// engine executes it, and where it fails nothing is put on the worklist.
pub proof fn law_instructions_are_executed_in_place<E: Engine>(
    engine: &mut E,
    env: &mut VerifierEnv,
    prog: Program,
    state: State,
    work: &mut Vec<State>,
    goes_on: bool,
)
    requires
        call_ensures(explore::<E>, (engine, env, &prog, state, work), goes_on),
    ensures
        state.pc >= prog.instrs@.len() ==> goes_on && *final(env) == *old(env) && final(work)@
            == old(work)@,
        !goes_on ==> final(work)@ == old(work)@ && final(env).error is Some,
        state.pc < prog.instrs@.len() ==> exists|
            e: &mut E,
            v: &mut VerifierEnv,
            entering: State,
            succs: Vec<State>,
        |
            {
                &&& #[trigger] call_ensures(
                    execute_step::<E>,
                    (e, v, &prog, entering, &prog.instrs@[state.pc as int]),
                    succs,
                )
                &&& *e == *old(engine)
                &&& entering.pc == state.pc && entering@.regs == state@.regs
                &&& v.current_step_idx == Some(old(env).history@.len() as usize)
                &&& v.history@.len() == old(env).history@.len() + 1
                &&& v.history@[old(env).history@.len() as int].pc == state.pc
                &&& v.history@[old(env).history@.len() as int].parent_idx == state.history_idx
                &&& goes_on <==> final(v).error is None
            },
{
}

/// The newest state is worked off: a round takes the last state off the worklist. Where
/// it is covered it counts as pruned and the run goes on; where the run stops nothing
/// more happens.
pub proof fn law_the_newest_state_is_worked_off<E: Engine>(
    engine: &mut E,
    env: &mut VerifierEnv,
    prog: Program,
    config: VerifierConfig,
    work: &mut Vec<State>,
    pruned: &mut usize,
    goes_on: bool,
)
    requires
        call_ensures(work_off::<E>, (engine, env, &prog, &config, work, pruned), goes_on),
        work@.len() > 0,
        *pruned < usize::MAX,
    ensures
        exists|e: &mut E, v: &mut VerifierEnv, s: &mut State, arrival: Arrival|
            {
                &&& #[trigger] call_ensures(receive::<E>, (e, v, &prog, &config, s), arrival)
                &&& *e == *old(engine) && *v == *old(env)
                &&& *s == old(work)@[old(work)@.len() - 1]
                &&& *final(pruned) == *old(pruned) + if arrival == Arrival::Pruned {
                    1int
                } else {
                    0
                }
                &&& arrival == Arrival::Stop ==> !goes_on
                &&& arrival == Arrival::Pruned ==> goes_on
                &&& arrival != Arrival::Explore ==> final(work)@.len() == old(work)@.len() - 1
                    && *final(env) == *final(v)
            },
{
}

}
