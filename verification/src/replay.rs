//! Replays: the path from a checkpoint to a rejected access is executed again
//! with an empty symbolic table, so that the conditions of just this path are
//! recorded.

use vstd::prelude::*;

use crate::ast::Instr;
use crate::engine::Engine;
use crate::env::{Breadcrumb, ProvedGoal, RefineEntry, VerifierEnv};
use crate::machine::{
    frame_views, Frame, FrameView, StackSlot, State, StateView, VerificationError,
};
use crate::record::{code_of_side, record_path_cond_for_side, recorded, side_code, BranchSide};
use crate::symbolic::{SymbolicState, SymbolicView};

verus! {

/// How many steps a path may have to be replayed.
pub const PATH_BUDGET: usize = 200_000;

/// A step of a path: its place in the history and its instruction.
#[derive(Clone, Copy, Debug)]
pub struct Step {
    pub idx: usize,
    pub pc: usize,
    pub instr: Instr,
}

/// The step at a place of the history.
pub open spec fn step_at(history: Seq<Breadcrumb>, idx: usize) -> Step {
    Step { idx, pc: history[idx as int].pc, instr: history[idx as int].instr }
}

/// The path that leads from behind the step `stop` to the step `last`, in the
/// order of execution. It goes back to the start of the exploration where it
/// never meets `stop`. `None` where it is longer than the budget or leaves the
/// history.
pub open spec fn path_to(
    history: Seq<Breadcrumb>,
    last: Option<usize>,
    stop: Option<usize>,
    budget: nat,
) -> Option<Seq<Step>>
    decreases budget,
{
    match last {
        None => Some(Seq::empty()),
        Some(idx) => if last == stop {
            Some(Seq::empty())
        } else if budget == 0 || idx >= history.len() {
            None
        } else {
            match path_to(history, history[idx as int].parent_idx, stop, (budget - 1) as nat) {
                Some(p) => Some(p.push(step_at(history, idx))),
                None => None,
            }
        },
    }
}

/// The path that leads from behind the step `stop` to the step `last`.
pub fn recover_path(history: &Vec<Breadcrumb>, last: usize, stop: Option<usize>) -> (r: Option<
    Vec<Step>,
>)
    ensures
        match r {
            Some(p) => path_to(history@, Some(last), stop, PATH_BUDGET as nat) == Some(p@),
            None => path_to(history@, Some(last), stop, PATH_BUDGET as nat) is None,
        },
{
    let mut back: Vec<Step> = Vec::new();
    let mut cur: Option<usize> = Some(last);
    let mut budget: usize = PATH_BUDGET;
    let ghost whole = path_to(history@, Some(last), stop, PATH_BUDGET as nat);
    proof {
        if whole is Some {
            assert(whole->0 + back@.reverse() =~= whole->0);
        }
    }
    loop
        invariant_except_break
            whole == path_to(history@, Some(last), stop, PATH_BUDGET as nat),
            whole == (match path_to(history@, cur, stop, budget as nat) {
                Some(p) => Some(p + back@.reverse()),
                None => None,
            }),
        ensures
            whole == path_to(history@, Some(last), stop, PATH_BUDGET as nat),
            whole == Some(back@.reverse()),
        decreases budget,
    {
        match cur {
            None => {
                assert(Seq::<Step>::empty() + back@.reverse() =~= back@.reverse());
                break;
            },
            Some(idx) => {
                let at_stop = match stop {
                    Some(s) => s == idx,
                    None => false,
                };
                if at_stop {
                    assert(Seq::<Step>::empty() + back@.reverse() =~= back@.reverse());
                    break;
                }
                if budget == 0 {
                    return None;
                }
                if idx >= history.len() {
                    return None;
                }
                let step = Step { idx, pc: history[idx].pc, instr: history[idx].instr };
                proof {
                    let rest = path_to(
                        history@,
                        history@[idx as int].parent_idx,
                        stop,
                        (budget - 1) as nat,
                    );
                    if rest is Some {
                        assert(rest->0.push(step) + back@.reverse() =~= rest->0 + back@.push(
                            step,
                        ).reverse());
                    }
                }
                budget = budget - 1;
                cur = history[idx].parent_idx;
                back.push(step);
            },
        }
    }
    let mut out: Vec<Step> = Vec::new();
    let mut k: usize = back.len();
    while k > 0
        invariant
            k <= back@.len(),
            out@ == back@.reverse().take(back@.len() - k),
        decreases k,
    {
        k -= 1;
        out.push(back[k]);
        assert(out@ =~= back@.reverse().take(back@.len() - k));
    }
    assert(out@ =~= back@.reverse());
    Some(out)
}

// ---------------------------------------------------------------------------
// Starting over
// ---------------------------------------------------------------------------

/// A slot without a symbolic term.
pub open spec fn termless_slot(s: StackSlot) -> StackSlot {
    StackSlot { bcf_expr: None, ..s }
}

/// A frame whose slots have no symbolic terms.
pub open spec fn termless_frame(f: FrameView) -> FrameView {
    FrameView { slots: f.slots.map_values(|s: StackSlot| termless_slot(s)), ..f }
}

/// Whether terms are shared with stack slots.
pub open spec fn shares_slots(v: StateView) -> bool {
    v.bcf matches Some(b) && b.share_slot_vars
}

/// A state whose symbolic side is empty. It shares terms with stack slots where
/// it did before, or where `share` asks for it.
pub open spec fn restarted(v: StateView, share: bool) -> StateView {
    StateView {
        bcf: Some(SymbolicView::fresh(share || shares_slots(v))),
        frames: v.frames.map_values(|f: FrameView| termless_frame(f)),
        ..v
    }
}

/// Empties the symbolic side of a state.
pub fn restart_symbolic(state: &mut State, share: bool)
    ensures
        final(state)@ == restarted(old(state)@, share),
{
    let ghost v0 = state@;
    let mut frames: Vec<Frame> = Vec::new();
    let mut k: usize = 0;
    while k < state.frames.len()
        invariant
            k <= state.frames@.len(),
            *state == *old(state),
            frames@.len() == k,
            forall|j: int|
                0 <= j < k ==> #[trigger] frames@[j]@ == termless_frame(state.frames@[j]@),
        decreases state.frames@.len() - k,
    {
        let f = &state.frames[k];
        let mut slots: Vec<StackSlot> = Vec::new();
        let mut m: usize = 0;
        while m < f.slots.len()
            invariant
                m <= f.slots@.len(),
                slots@.len() == m,
                forall|j: int| 0 <= j < m ==> #[trigger] slots@[j] == termless_slot(f.slots@[j]),
            decreases f.slots@.len() - m,
        {
            let mut slot = f.slots[m];
            slot.bcf_expr = None;
            slots.push(slot);
            m += 1;
        }
        let g = Frame { return_pc: f.return_pc, active_iterators: f.active_iterators, slots };
        assert(g@.slots =~= termless_frame(f@).slots);
        frames.push(g);
        k += 1;
    }
    let shared = share || match &state.bcf {
        Some(b) => b.share_slot_vars,
        None => false,
    };
    assert(frame_views(frames@) =~= restarted(v0, share).frames);
    state.frames = frames;
    state.bcf = Some(SymbolicState::new(shared));
}

/// The state after the branch that led to `next_pc` was recorded on it; other
/// instructions leave no condition. A branch was taken where the next
/// instruction is not the one behind it.
pub open spec fn entered_by(v: StateView, step: Option<Step>, next_pc: usize) -> StateView {
    match step {
        Some(s) => match s.instr {
            Instr::If { width, left, op, right, target } => branch_recorded(
                v,
                s.instr,
                s.pc,
                next_pc != s.pc + 1,
            ),
            _ => v,
        },
        None => v,
    }
}

/// The state after one side of a conditional jump was recorded on it, with the
/// ranges that the state has. A bit test is not recorded.
pub open spec fn branch_recorded(v: StateView, instr: Instr, pc: usize, taken: bool) -> StateView {
    match instr {
        Instr::If { width, left, op, right, target } => match side_code(op, taken) {
            Some(code) => recorded(
                v,
                BranchSide {
                    width,
                    left,
                    op,
                    code,
                    right,
                    pc,
                    narrowed: None,
                    pre_bounds: v.regs[left.spec_index()].bounds,
                },
            ),
            None => v,
        },
        _ => v,
    }
}

/// Records one side of a conditional jump on a state.
pub fn record_branch(state: &mut State, instr: &Instr, pc: usize, taken: bool)
    ensures
        final(state)@ == branch_recorded(old(state)@, *instr, pc, taken),
{
    match *instr {
        Instr::If { width, left, op, right, .. } => {
            match code_of_side(op, taken) {
                Some(code) => {
                    let pre_bounds = state.reg(left).bounds;
                    let side = BranchSide {
                        width,
                        left,
                        op,
                        code,
                        right,
                        pc,
                        narrowed: None,
                        pre_bounds,
                    };
                    record_path_cond_for_side(state, side);
                },
                None => {},
            }
        },
        _ => {},
    }
}

/// Records the branch that led to `next_pc` on a state.
pub fn record_entry(state: &mut State, step: &Option<Step>, next_pc: usize)
    ensures
        final(state)@ == entered_by(old(state)@, *step, next_pc),
{
    match step {
        Some(s) => {
            let taken = !(s.pc < usize::MAX && next_pc == s.pc + 1);
            record_branch(state, &s.instr, s.pc, taken);
        },
        None => {},
    }
}

/// The first of the states that stands at `pc`.
pub open spec fn first_at(states: Seq<State>, pc: usize) -> Option<State>
    decreases states.len(),
{
    if states.len() == 0 {
        None
    } else if states[0].pc == pc {
        Some(states[0])
    } else {
        first_at(states.skip(1), pc)
    }
}

/// Picks the first of the states that stands at `pc`.
pub fn pick_at(states: Vec<State>, pc: usize) -> (r: Option<State>)
    ensures
        r == first_at(states@, pc),
{
    let mut i: usize = 0;
    assert(states@.skip(0) =~= states@);
    while i < states.len()
        invariant
            i <= states@.len(),
            first_at(states@.skip(i as int), pc) == first_at(states@, pc),
        decreases states@.len() - i,
    {
        assert(states@.skip(i as int)[0] == states@[i as int]);
        assert(states@.skip(i as int).skip(1) =~= states@.skip(i + 1));
        if states[i].pc == pc {
            let mut rest = states;
            let found = rest.remove(i);
            return Some(found);
        }
        i += 1;
    }
    None
}

// ---------------------------------------------------------------------------
// Replays of unreachable paths
// ---------------------------------------------------------------------------

/// Where the symbolic side of a replay starts over: nowhere, or at a step,
/// either before it is executed or behind it.
#[derive(Clone, Copy, Debug, PartialEq, Eq)]
pub struct ResetPoint {
    pub at: Option<usize>,
    pub before: bool,
}

/// The reset points of the first `n` steps of a path: none at all; before and
/// behind each conditional jump; before each step that follows a call.
pub open spec fn reset_points(path: Seq<Step>, n: nat) -> Seq<ResetPoint>
    decreases n,
{
    if n == 0 {
        seq![ResetPoint { at: None, before: false }]
    } else {
        let i = (n - 1) as usize;
        let earlier = reset_points(path, (n - 1) as nat);
        let jump = if path[i as int].instr is If {
            seq![
                ResetPoint { at: Some(i), before: false },
                ResetPoint { at: Some(i), before: true },
            ]
        } else {
            Seq::empty()
        };
        let call = if i > 0 && path[i - 1].instr is Call {
            seq![ResetPoint { at: Some(i), before: true }]
        } else {
            Seq::empty()
        };
        earlier + jump + call
    }
}

/// The reset points of the first `n` steps of a path.
pub fn list_reset_points(path: &Vec<Step>, n: usize) -> (r: Vec<ResetPoint>)
    requires
        n <= path@.len(),
    ensures
        r@ == reset_points(path@, n as nat),
        r@.len() > 0,
        forall|k: int| 0 <= k < r@.len() ==> ((#[trigger] r@[k]).at matches Some(i) ==> i < n),
{
    let mut out: Vec<ResetPoint> = Vec::new();
    out.push(ResetPoint { at: None, before: false });
    assert(out@ =~= reset_points(path@, 0));
    let mut i: usize = 0;
    while i < n
        invariant
            i <= n,
            n <= path@.len(),
            out@ == reset_points(path@, i as nat),
            out@.len() > 0,
            forall|k: int|
                0 <= k < out@.len() ==> ((#[trigger] out@[k]).at matches Some(j) ==> j < n),
        decreases n - i,
    {
        let ghost before = out@;
        let is_if = match path[i].instr {
            Instr::If { .. } => true,
            _ => false,
        };
        if is_if {
            out.push(ResetPoint { at: Some(i), before: false });
            out.push(ResetPoint { at: Some(i), before: true });
        }
        if i > 0 {
            match path[i - 1].instr {
                Instr::Call { .. } => {
                    out.push(ResetPoint { at: Some(i), before: true });
                },
                _ => {},
            }
        }
        assert(out@ =~= reset_points(path@, (i + 1) as nat));
        i += 1;
    }
    out
}

/// The step that created a checkpoint.
pub open spec fn creating_step(env: VerifierEnv, cached: State) -> Option<Step> {
    match cached.history_idx {
        Some(idx) => if idx < env.history@.len() {
            Some(step_at(env.history@, idx))
        } else {
            None
        },
        None => None,
    }
}

/// The path that leads from a checkpoint to the step under way.
pub open spec fn replay_path(env: VerifierEnv, from: State) -> Option<Seq<Step>> {
    match env.current_step_idx {
        Some(last) => path_to(env.history@, Some(last), from.history_idx, PATH_BUDGET as nat),
        None => None,
    }
}

/// How many steps of a path are executed again: all of them where the rejected
/// state lies behind the last one, else all but the last.
pub open spec fn steps_to_run(path: Seq<Step>, reject_pc: usize) -> nat {
    if path.len() == 0 {
        0
    } else if reject_pc != path.last().pc {
        path.len()
    } else {
        (path.len() - 1) as nat
    }
}

/// The checkpoint that bears a number.
pub open spec fn checkpoint_at(env: VerifierEnv, id: u32) -> State {
    match env.cache@.resolve(id) {
        Some(e) => e.1,
        None => arbitrary(),
    }
}

/// The path whose replay may show that a rejected state is unreachable; `None`
/// where there is nothing to execute.
pub open spec fn unreachable_path(env: VerifierEnv, reject_pc: usize, base: u32) -> Option<
    Seq<Step>,
> {
    match env.cache@.resolve(base) {
        Some(e) => match replay_path(env, e.1) {
            Some(path) => if steps_to_run(path, reject_pc) > 0 {
                Some(path)
            } else {
                None
            },
            None => None,
        },
        None => None,
    }
}

/// Where a step leads: to the next one, or to the rejected state.
pub open spec fn wanted_pc(path: Seq<Step>, i: int, reject_pc: usize) -> usize {
    if i + 1 < path.len() {
        path[i + 1].pc
    } else {
        reject_pc
    }
}

/// A state on its way into a step of a replay.
pub open spec fn before_step(v: StateView, step: Step, starts_over: bool) -> StateView {
    let w = StateView { pc: step.pc, ..v };
    if starts_over {
        restarted(w, false)
    } else {
        w
    }
}

/// Puts a state on its way into a step of a replay.
pub fn enter_step(state: &mut State, step: &Step, starts_over: bool)
    ensures
        final(state)@ == before_step(old(state)@, *step, starts_over),
{
    state.pc = step.pc;
    if starts_over {
        restart_symbolic(state, false);
    }
}

/// A state behind a conditional jump at which the symbolic side starts over: the
/// jump itself is its first condition.
pub open spec fn behind_step(v: StateView, step: Step, next_pc: usize) -> StateView {
    match step.instr {
        Instr::If { width, left, op, right, target } => if side_code(op, true) is Some {
            branch_recorded(restarted(v, false), step.instr, step.pc, next_pc == target)
        } else {
            v
        },
        _ => v,
    }
}

/// Starts the symbolic side of a state over behind a conditional jump.
pub fn leave_step(state: &mut State, step: &Step, next_pc: usize)
    ensures
        final(state)@ == behind_step(old(state)@, *step, next_pc),
{
    match step.instr {
        Instr::If { op, target, .. } => {
            if code_of_side(op, true).is_some() {
                restart_symbolic(state, false);
                record_branch(state, &step.instr, step.pc, next_pc == target);
            }
        },
        _ => {},
    }
}

/// The state that a replay starts with: the checkpoint with an empty symbolic
/// side, on which the branch that created the checkpoint is recorded.
pub open spec fn replay_start(
    v: StateView,
    creating: Option<Step>,
    first_pc: usize,
    share: bool,
) -> StateView {
    entered_by(restarted(v, share), creating, first_pc)
}

/// Makes the state that a replay starts with.
pub fn begin_replay(
    from: &State,
    creating: &Option<Step>,
    first_pc: usize,
    share: bool,
) -> (r: State)
    ensures
        r@ == replay_start(from@, *creating, first_pc, share),
{
    let mut state = from.duplicate();
    restart_symbolic(&mut state, share);
    record_entry(&mut state, creating, first_pc);
    state
}

/// Has the engine execute a step again, and picks the first state that follows at
/// `next_pc`. `None` where the execution leaves the path. The counters stay as they
/// were.
pub fn replay_step<E: Engine>(
    engine: &mut E,
    env: &mut VerifierEnv,
    entering: State,
    step: &Step,
    next_pc: usize,
) -> (r: Option<State>)
    ensures
        final(env).counters == old(env).counters,
        r matches Some(s) ==> s.pc == next_pc,
        exists|e: &mut E, v: &mut VerifierEnv, succs: Vec<State>|
            {
                &&& #[trigger] call_ensures(E::transfer, (e, v, entering, &step.instr), succs)
                &&& *e == *old(engine)
                &&& *v == *old(env)
                &&& *final(engine) == *final(e)
                &&& *final(env) == (VerifierEnv { counters: old(env).counters, ..*final(v) })
                &&& r == first_at(succs@, next_pc)
            },
{
    let counters = env.counters;
    let succs = engine.transfer(env, entering, &step.instr);
    env.counters = counters;
    proof {
        lemma_first_at(succs@, next_pc);
    }
    pick_at(succs, next_pc)
}

/// How a path is executed again.
#[derive(Clone, Copy, Debug)]
pub enum Course {
    /// To a rejected state, with one reset point.
    ToReject { reject_pc: usize, reset: ResetPoint },
    /// To the access under check, which is the last step and is not executed. The
    /// symbolic side may start over before one step.
    ToAccess { reset_at: Option<usize>, at_crossing: bool, share: bool },
}

/// A state on its way into step `i` of a course.
pub open spec fn entered(course: Course, path: Seq<Step>, i: int, v: StateView) -> StateView {
    match course {
        Course::ToReject { reject_pc, reset } => before_step(
            v,
            path[i],
            reset.before && reset.at == Some(i as usize),
        ),
        Course::ToAccess { reset_at, at_crossing, share } => if reset_at == Some(i as usize) {
            before_reset_step(v, path, i, share, at_crossing)
        } else {
            StateView { pc: path[i].pc, ..v }
        },
    }
}

/// A state that came out of step `i` of a course.
pub open spec fn left(course: Course, path: Seq<Step>, i: int, v: StateView) -> StateView {
    match course {
        Course::ToReject { reject_pc, reset } => if !reset.before && reset.at == Some(i as usize) {
            behind_step(v, path[i], wanted_pc(path, i, reject_pc))
        } else {
            v
        },
        Course::ToAccess { reset_at, at_crossing, share } => v,
    }
}

/// The state that came out of step `i` of a course, if any did.
pub open spec fn left_by(
    course: Course,
    path: Seq<Step>,
    i: int,
    reply: Option<State>,
) -> Option<StateView> {
    match reply {
        Some(s) => Some(left(course, path, i, s@)),
        None => None,
    }
}

/// Where step `i` of a course leads.
pub open spec fn leads_to(course: Course, path: Seq<Step>, i: int) -> usize {
    match course {
        Course::ToReject { reject_pc, reset } => wanted_pc(path, i, reject_pc),
        Course::ToAccess { reset_at, at_crossing, share } => path[i + 1].pc,
    }
}

/// A replay between two steps; without a state where the execution has left the
/// path.
pub struct ReplayMoment<'c, E> {
    pub engine: E,
    pub env: VerifierEnv<'c>,
    pub state: Option<StateView>,
}

/// A step of a replay: what was handed to `replay_step`, and what it returned.
pub struct ReplayedStep<'a, 'c, E> {
    pub engine: &'a mut E,
    pub env: &'a mut VerifierEnv<'c>,
    pub entering: State,
    pub reply: Option<State>,
}

/// Whether step `i` of a course was executed at a moment, and what state the next
/// moment has.
pub open spec fn step_replayed<E: Engine>(
    course: Course,
    path: Seq<Step>,
    i: int,
    moment: ReplayMoment<E>,
    call: ReplayedStep<E>,
    next: Option<StateView>,
) -> bool {
    &&& *call.engine == moment.engine
    &&& *call.env == moment.env
    &&& moment.state matches Some(v) && call.entering@ == entered(course, path, i, v)
    &&& call_ensures(
        replay_step::<E>,
        (call.engine, call.env, call.entering, &path[i], leads_to(course, path, i)),
        call.reply,
    )
    &&& next == left_by(course, path, i, call.reply)
}

/// Whether the first steps of a course were executed one after the other.
pub open spec fn steps_replayed<E: Engine>(
    course: Course,
    path: Seq<Step>,
    moments: Seq<ReplayMoment<E>>,
    calls: Seq<ReplayedStep<E>>,
) -> bool {
    &&& moments.len() == calls.len() + 1
    &&& forall|i: int|
        0 <= i < calls.len() ==> step_replayed(
            course,
            path,
            i,
            moments[i],
            #[trigger] calls[i],
            moments[i + 1].state,
        )
}

/// Whether `r` is the state at the end of a replay.
pub open spec fn ends_with<E>(moment: ReplayMoment<E>, r: Option<State>) -> bool {
    match r {
        Some(s) => moment.state == Some(s@),
        None => moment.state is None,
    }
}

/// Executes the first `n` steps of a path again, with one reset point. `None`
/// where the execution leaves the path.
pub fn run_rung<E: Engine>(
    engine: &mut E,
    env: &mut VerifierEnv,
    start: State,
    path: &Vec<Step>,
    n: usize,
    reject_pc: usize,
    reset: ResetPoint,
) -> (r: Option<State>)
    requires
        0 < n <= path@.len(),
    ensures
        final(env).counters == old(env).counters,
        exists|moments: Seq<ReplayMoment<E>>, calls: Seq<ReplayedStep<E>>|
            {
                    &&& #[trigger] steps_replayed(
                        Course::ToReject { reject_pc, reset },
                        path@,
                        moments,
                        calls,
                    )
                    &&& forall|i: int|
                        0 <= i < calls.len() ==> *final((#[trigger] calls[i]).engine) == moments[i
                            + 1].engine && *final(calls[i].env) == moments[i + 1].env
                    &&& moments[0] == (ReplayMoment {
                        engine: *old(engine),
                        env: *old(env),
                        state: Some(start@),
                    })
                    &&& moments.last().engine == *final(engine)
                    &&& moments.last().env == *final(env)
                    &&& ends_with(moments.last(), r)
                    &&& 0 < calls.len() <= n
                    &&& r is Some ==> calls.len() == n
                },
{
    let ghost course = Course::ToReject { reject_pc, reset };
    let ghost engine0 = *engine;
    let ghost env0 = *env;
    let ghost first = start@;
    let mut holder: State = start;
    let mut i: usize = 0;
    proof {
        let m = ReplayMoment { engine: engine0, env: env0, state: Some(first) };
        assert(steps_replayed(course, path@, seq![m], Seq::<ReplayedStep<E>>::empty()));
    }
    while i < n
        invariant
            i <= n,
            n <= path@.len(),
            course == (Course::ToReject { reject_pc, reset }),
            engine0 == *old(engine),
            env0 == *old(env),
            first == start@,
            env.counters == env0.counters,
            exists|moments: Seq<ReplayMoment<E>>, calls: Seq<ReplayedStep<E>>|
                {
                    &&& #[trigger] steps_replayed(course, path@, moments, calls)
                    &&& forall|i: int|
                        0 <= i < calls.len() ==> *final((#[trigger] calls[i]).engine) == moments[i
                            + 1].engine && *final(calls[i].env) == moments[i + 1].env
                    &&& moments[0] == (ReplayMoment {
                        engine: engine0,
                        env: env0,
                        state: Some(first),
                    })
                    &&& moments.last().engine == *engine
                    &&& moments.last().env == *env
                    &&& calls.len() == i && moments.last().state == Some(holder@)
                },
        decreases n - i,
    {
        let ghost here_engine = *engine;
        let ghost here_env = *env;
        let ghost here_state = holder@;
        let step = path[i];
        let here = match reset.at {
            Some(k) => k == i,
            None => false,
        };
        let mut entering = holder;
        enter_step(&mut entering, &step, here && reset.before);
        let next_pc: usize = if i + 1 < path.len() {
            path[i + 1].pc
        } else {
            reject_pc
        };
        let reply = replay_step(engine, env, entering, &step, next_pc);
        proof {
            assert(next_pc == leads_to(course, path@, i as int));
            assert(entering@ == entered(course, path@, i as int, here_state));
            let (moments, calls) = choose|
                moments: Seq<ReplayMoment<E>>,
                calls: Seq<ReplayedStep<E>>,
            |
                {
                    &&& #[trigger] steps_replayed(course, path@, moments, calls)
                    &&& forall|i: int|
                        0 <= i < calls.len() ==> *final((#[trigger] calls[i]).engine) == moments[i
                            + 1].engine && *final(calls[i].env) == moments[i + 1].env
                    &&& moments[0] == (ReplayMoment {
                        engine: engine0,
                        env: env0,
                        state: Some(first),
                    })
                    &&& moments.last().engine == here_engine
                    &&& moments.last().env == here_env
                    &&& calls.len() == i && moments.last().state == Some(here_state)
                };
            let (e, v) = choose|e: &mut E, v: &mut VerifierEnv|
                {
                    &&& #[trigger] call_ensures(
                        replay_step::<E>,
                        (e, v, entering, &step, next_pc),
                        reply,
                    )
                    &&& *e == here_engine
                    &&& *v == here_env
                    &&& *final(e) == *engine
                    &&& *final(v) == *env
                };
            let call = ReplayedStep { engine: e, env: v, entering, reply };
            let next = left_by(course, path@, i as int, reply);
            let now = ReplayMoment { engine: *engine, env: *env, state: next };
            let moments1 = moments.push(now);
            let calls1 = calls.push(call);
            assert(step_replayed(course, path@, i as int, moments.last(), call, next));
            assert forall|k: int| 0 <= k < calls1.len() implies step_replayed(
                course,
                path@,
                k,
                moments1[k],
                #[trigger] calls1[k],
                moments1[k + 1].state,
            ) by {
                if k < calls.len() {
                    assert(calls1[k] == calls[k]);
                    assert(moments1[k + 1] == moments[k + 1]);
                }
            }
            assert(steps_replayed(course, path@, moments1, calls1));
        }
        match reply {
            Some(s) => {
                holder = s;
            },
            None => {
                return None;
            },
        }
        if here && !reset.before {
            leave_step(&mut holder, &step, next_pc);
        }
        i += 1;
    }
    Some(holder)
}

proof fn lemma_first_at(states: Seq<State>, pc: usize)
    ensures
        first_at(states, pc) matches Some(s) ==> s.pc == pc && states.contains(s),
    decreases states.len(),
{
    if states.len() > 0 && states[0].pc != pc {
        lemma_first_at(states.skip(1), pc);
        if first_at(states, pc) is Some {
            let s = first_at(states, pc)->0;
            let k = choose|k: int| 0 <= k < states.skip(1).len() && states.skip(1)[k] == s;
            assert(states[k + 1] == s);
        }
    }
}

/// The name of a rung: the program counter of the step at which the symbolic side
/// starts over, or minus one.
pub open spec fn rung_name(path: Seq<Step>, reset: ResetPoint) -> i32 {
    match reset.at {
        Some(i) => path[i as int].pc as i32,
        None => -1i32,
    }
}

/// Replays the path from a checkpoint to the rejected state with one reset point,
/// and has the engine try to prove that the conditions which were recorded
/// contradict one another. An error that the replay meets stays with the run.
pub fn try_rung<E: Engine>(
    engine: &mut E,
    env: &mut VerifierEnv,
    from: &State,
    creating: &Option<Step>,
    path: &Vec<Step>,
    n: usize,
    reject_pc: usize,
    reset: ResetPoint,
) -> (r: Option<ProvedGoal>)
    requires
        0 < n <= path@.len(),
    ensures
        final(env).counters == old(env).counters,
        !final(env).replay_mode,
        exists|e: &mut E, v: &mut VerifierEnv, start: State, end: Option<State>|
            {
                &&& #[trigger] call_ensures(
                    run_rung::<E>,
                    (e, v, start, path, n, reject_pc, reset),
                    end,
                )
                &&& *e == *old(engine)
                &&& *v == (VerifierEnv { error: None, replay_mode: true, ..*old(env) })
                &&& start@ == replay_start(from@, *creating, path@[0].pc, false)
                &&& *final(engine) == *final(e)
                &&& *final(env) == (VerifierEnv { replay_mode: false, ..*final(v) })
                &&& if end is Some && end->0.bcf is Some {
                    call_ensures(
                        E::prove_replayed_path,
                        (&*final(engine), &end->0.bcf->0),
                        r,
                    )
                } else {
                    r is None
                }
            },
{
    env.error = None;
    let start = begin_replay(from, creating, path[0].pc, false);
    env.replay_mode = true;
    let end = run_rung(engine, env, start, path, n, reject_pc, reset);
    env.replay_mode = false;
    match &end {
        Some(s) => match &s.bcf {
            Some(table) => engine.prove_replayed_path(table),
            None => None,
        },
        None => None,
    }
}

/// A row of replays between two of them.
pub struct RungMoment<'c, E> {
    pub engine: E,
    pub env: VerifierEnv<'c>,
}

/// A replay with one reset point: what was handed to `try_rung`, and what it
/// returned.
pub struct Rung<'a, 'c, E> {
    pub engine: &'a mut E,
    pub env: &'a mut VerifierEnv<'c>,
    pub reply: Option<ProvedGoal>,
}

/// What all replays of a path have in common.
pub struct RungBase {
    pub from: State,
    pub creating: Option<Step>,
    pub path: Vec<Step>,
    pub n: usize,
    pub reject_pc: usize,
}

/// Whether a replay with a reset point was made at a moment.
pub open spec fn rung_tried<E: Engine>(
    base: RungBase,
    reset: ResetPoint,
    moment: RungMoment<E>,
    rung: Rung<E>,
) -> bool {
    &&& *rung.engine == moment.engine
    &&& *rung.env == moment.env
    &&& call_ensures(
        try_rung::<E>,
        (
            rung.engine,
            rung.env,
            &base.from,
            &base.creating,
            &base.path,
            base.n,
            base.reject_pc,
            reset,
        ),
        rung.reply,
    )
}

/// Whether one replay was made for each of the given reset points, in order.
pub open spec fn rungs_tried<E: Engine>(
    base: RungBase,
    points: Seq<ResetPoint>,
    moments: Seq<RungMoment<E>>,
    rungs: Seq<Rung<E>>,
) -> bool {
    &&& rungs.len() == points.len()
    &&& moments.len() == points.len() + 1
    &&& forall|k: int|
        0 <= k < points.len() ==> rung_tried(base, points[k], moments[k], #[trigger] rungs[k])
}

/// The goals that were proved, each with the name of its rung, in order.
pub open spec fn rung_goals<E: Engine>(
    path: Seq<Step>,
    points: Seq<ResetPoint>,
    rungs: Seq<Rung<E>>,
) -> Seq<(i32, ProvedGoal)>
    decreases rungs.len(),
{
    if rungs.len() == 0 {
        Seq::empty()
    } else {
        let earlier = rung_goals(path, points, rungs.drop_last());
        match rungs.last().reply {
            Some(goal) => earlier.push((rung_name(path, points[rungs.len() - 1]), goal)),
            None => earlier,
        }
    }
}

/// Replays the path from a checkpoint to the rejected state once for every reset
/// point, and returns the proofs that the path cannot be taken, each with the
/// name of its rung. An error that the run already has is kept, and one that a
/// replay meets is dropped with it. The bundle is put aside meanwhile, so that a
/// replay adds nothing to it.
pub fn try_prove_unreachable_via_replay<E: Engine>(
    engine: &mut E,
    env: &mut VerifierEnv,
    reject: &State,
    base: u32,
) -> (goals: Vec<(i32, ProvedGoal)>)
    ensures
        final(env).counters == old(env).counters,
        final(env).error == old(env).error,
        final(env).bcf_proofs == old(env).bcf_proofs,
        match unreachable_path(*old(env), reject.pc, base) {
            None => {
                goals@.len() == 0 && *final(engine) == *old(engine) && *final(env) == *old(env)
            },
            Some(path) => exists|
                b: RungBase,
                points: Seq<ResetPoint>,
                during: VerifierEnv,
                moments: Seq<RungMoment<E>>,
                rungs: Seq<Rung<E>>,
            |
                {
                    &&& points == reset_points(path, steps_to_run(path, reject.pc))
                    &&& #[trigger] put_aside(*old(env), during)
                    &&& b.from@ == checkpoint_at(*old(env), base)@
                    &&& b.creating == creating_step(*old(env), checkpoint_at(*old(env), base))
                    &&& b.path@ == path
                    &&& b.n == steps_to_run(path, reject.pc)
                    &&& b.reject_pc == reject.pc
                    &&& #[trigger] rungs_tried(b, points, moments, rungs)
                    &&& forall|k: int|
                        0 <= k < rungs.len() ==> *final((#[trigger] rungs[k]).engine) == moments[k
                            + 1].engine && *final(rungs[k].env) == moments[k + 1].env
                    &&& moments[0] == (RungMoment { engine: *old(engine), env: during })
                    &&& *final(engine) == moments.last().engine
                    &&& *final(env) == put_back(*old(env), moments.last().env)
                    &&& goals@ == rung_goals(path, points, rungs)
                },
        },
{
    let ghost env0 = *env;
    let ghost engine0 = *engine;
    let (from, creating): (State, Option<Step>) = match env.cache.data().state_by_cache_id(base) {
        Some((_, s)) => {
            let creating = match s.history_idx {
                Some(idx) => {
                    if idx < env.history.len() {
                        Some(
                            Step { idx, pc: env.history[idx].pc, instr: env.history[idx].instr },
                        )
                    } else {
                        None
                    }
                },
                None => None,
            };
            (s.duplicate(), creating)
        },
        None => {
            return Vec::new();
        },
    };
    let last: usize = match env.current_step_idx {
        Some(i) => i,
        None => {
            return Vec::new();
        },
    };
    let path = match recover_path(&env.history, last, from.history_idx) {
        Some(p) => p,
        None => {
            return Vec::new();
        },
    };
    if path.len() == 0 {
        return Vec::new();
    }
    let n: usize = if reject.pc != path[path.len() - 1].pc {
        path.len()
    } else {
        path.len() - 1
    };
    if n == 0 {
        return Vec::new();
    }
    assert(unreachable_path(env0, reject.pc, base) == Some(path@));
    let points = list_reset_points(&path, n);
    let mut saved_error: Option<VerificationError> = None;
    std::mem::swap(&mut saved_error, &mut env.error);
    let mut bundle: Vec<RefineEntry> = Vec::new();
    std::mem::swap(&mut bundle, &mut env.bcf_proofs);
    let ghost during = *env;
    assert(put_aside(env0, during));
    let ghost b = RungBase { from, creating, path, n, reject_pc: reject.pc };
    let mut goals: Vec<(i32, ProvedGoal)> = Vec::new();
    let mut k: usize = 0;
    proof {
        let m = RungMoment { engine: engine0, env: during };
        assert(points@.take(0) =~= Seq::<ResetPoint>::empty());
        assert(rungs_tried(b, points@.take(0), seq![m], Seq::<Rung<E>>::empty()));
        assert(goals@ =~= rung_goals(path@, points@, Seq::<Rung<E>>::empty()));
    }
    while k < points.len()
        invariant
            k <= points@.len(),
            0 < n <= path@.len(),
            b == (RungBase { from, creating, path, n, reject_pc: reject.pc }),
            forall|j: int|
                0 <= j < points@.len() ==> ((#[trigger] points@[j]).at matches Some(i) ==> i < n),
            env.counters == env0.counters,
            exists|moments: Seq<RungMoment<E>>, rungs: Seq<Rung<E>>|
                {
                    &&& #[trigger] rungs_tried(b, points@.take(k as int), moments, rungs)
                    &&& forall|j: int|
                        0 <= j < rungs.len() ==> *final((#[trigger] rungs[j]).engine) == moments[j
                            + 1].engine && *final(rungs[j].env) == moments[j + 1].env
                    &&& moments[0] == (RungMoment { engine: engine0, env: during })
                    &&& moments.last() == (RungMoment { engine: *engine, env: *env })
                    &&& goals@ == rung_goals(path@, points@, rungs)
                },
        decreases points@.len() - k,
    {
        let ghost here = RungMoment { engine: *engine, env: *env };
        let ghost goals0 = goals@;
        let reset = points[k];
        let reply = try_rung(engine, env, &from, &creating, &path, n, reject.pc, reset);
        let ghost answer = reply;
        match reply {
            Some(goal) => {
                let rung: i32 = match reset.at {
                    Some(i) => #[verifier::truncate]
                    (path[i].pc as i32),
                    None => -1,
                };
                goals.push((rung, goal));
            },
            None => {},
        }
        proof {
            let (moments, rungs) = choose|moments: Seq<RungMoment<E>>, rungs: Seq<Rung<E>>|
                {
                    &&& #[trigger] rungs_tried(b, points@.take(k as int), moments, rungs)
                    &&& forall|j: int|
                        0 <= j < rungs.len() ==> *final((#[trigger] rungs[j]).engine) == moments[j
                            + 1].engine && *final(rungs[j].env) == moments[j + 1].env
                    &&& moments[0] == (RungMoment { engine: engine0, env: during })
                    &&& moments.last() == here
                    &&& goals0 == rung_goals(path@, points@, rungs)
                };
            let (e, v) = choose|e: &mut E, v: &mut VerifierEnv|
                {
                    &&& #[trigger] call_ensures(
                        try_rung::<E>,
                        (e, v, &from, &creating, &path, n, reject.pc, reset),
                        answer,
                    )
                    &&& *e == here.engine
                    &&& *v == here.env
                    &&& *final(e) == *engine
                    &&& *final(v) == *env
                };
            let rung = Rung { engine: e, env: v, reply: answer };
            let rungs1 = rungs.push(rung);
            let moments1 = moments.push(RungMoment { engine: *engine, env: *env });
            let taken = points@.take(k + 1);
            assert(rung_tried(b, reset, here, rung));
            assert forall|j: int| 0 <= j < taken.len() implies rung_tried(
                b,
                taken[j],
                moments1[j],
                #[trigger] rungs1[j],
            ) by {
                if j < rungs.len() {
                    assert(rungs1[j] == rungs[j]);
                    assert(points@.take(k as int)[j] == taken[j]);
                }
            }
            assert(rungs_tried(b, taken, moments1, rungs1));
            assert(rungs1.drop_last() =~= rungs);
            assert(goals@ == rung_goals(path@, points@, rungs1));
        }
        k += 1;
    }
    env.error = saved_error;
    env.bcf_proofs = bundle;
    assert(points@.take(k as int) =~= points@);
    goals
}

// ---------------------------------------------------------------------------
// Replays up to a rejected access
// ---------------------------------------------------------------------------

/// How a path to a rejected access is replayed.
#[derive(Clone, Copy, Debug)]
pub struct ReplayShape {
    /// Start one checkpoint earlier, and start the symbolic side over behind the
    /// base.
    pub anchor_at_parent: bool,
    pub share_slot_vars: bool,
    /// Start the symbolic side over where the path comes by the anchor again:
    /// the last time, the last but one, and so on.
    pub reset_at_crossing: Option<usize>,
    /// The anchor's place, where it is not the first state's own.
    pub crossing_pc: Option<usize>,
}

/// What a replay up to a rejected access does.
pub struct ReplayPlan {
    pub start: State,
    pub path: Vec<Step>,
    /// The step before which the symbolic side starts over.
    pub reset_at: Option<usize>,
    /// Whether the branch into that step is recorded again.
    pub at_crossing: bool,
    /// The step whose condition comes first.
    pub creating: Option<Step>,
}

/// What a plan holds.
#[verifier::ext_equal]
pub struct PlanView {
    pub start: StateView,
    pub path: Seq<Step>,
    pub reset_at: Option<usize>,
    pub at_crossing: bool,
    pub creating: Option<Step>,
}

impl View for ReplayPlan {
    type V = PlanView;

    open spec fn view(&self) -> PlanView {
        PlanView {
            start: self.start@,
            path: self.path@,
            reset_at: self.reset_at,
            at_crossing: self.at_crossing,
            creating: self.creating,
        }
    }
}

/// The place of the first step of a path that is the given one.
pub open spec fn place_of(path: Seq<Step>, idx: usize) -> Option<int>
    decreases path.len(),
{
    if path.len() == 0 {
        None
    } else {
        match place_of(path.drop_last(), idx) {
            Some(p) => Some(p),
            None => if path.last().idx == idx {
                Some(path.len() - 1)
            } else {
                None
            },
        }
    }
}

/// The places between the ends of a path, below `n`, at which it comes by `pc`.
pub open spec fn crossings(path: Seq<Step>, pc: usize, n: int) -> Seq<usize>
    decreases n,
{
    if n <= 1 {
        Seq::empty()
    } else {
        let earlier = crossings(path, pc, n - 1);
        if path[n - 1].pc == pc {
            earlier.push((n - 1) as usize)
        } else {
            earlier
        }
    }
}

/// The checkpoint that a replay starts with.
pub open spec fn anchor_of(env: VerifierEnv, base: State, shape: ReplayShape) -> Option<State> {
    if !shape.anchor_at_parent {
        Some(base)
    } else {
        match base.parent_cache_id {
            Some(id) => match env.cache@.resolve(id) {
                Some(e) => if e.1.history_idx == base.history_idx {
                    None
                } else {
                    Some(e.1)
                },
                None => None,
            },
            None => None,
        }
    }
}

/// What a replay from a checkpoint to the access under check has to do; `None`
/// where the path cannot be recovered or has no such reset point.
pub open spec fn planned(env: VerifierEnv, base: u32, shape: ReplayShape) -> Option<PlanView> {
    match env.cache@.resolve(base) {
        None => None,
        Some(e) => match anchor_of(env, e.1, shape) {
            None => None,
            Some(anchor) => match replay_path(env, anchor) {
                None => None,
                Some(path) => planned_on(env, e.1, anchor, path, shape),
            },
        },
    }
}

/// Whether the crossings that a shape counts, from one on, can be counted. No
/// crossing bears the number zero; that matters only where a path is found on which
/// crossings are looked for.
pub open spec fn countable(env: VerifierEnv, base: u32, shape: ReplayShape) -> bool {
    shape.reset_at_crossing == Some(0usize) && !shape.anchor_at_parent ==> match env.cache@.resolve(
        base,
    ) {
        Some(e) => match replay_path(env, e.1) {
            Some(path) => path.len() == 0,
            None => true,
        },
        None => true,
    }
}

/// What a replay of a path has to do.
pub open spec fn planned_on(
    env: VerifierEnv,
    base: State,
    anchor: State,
    path: Seq<Step>,
    shape: ReplayShape,
) -> Option<PlanView> {
    let plan = PlanView {
        start: anchor@,
        path,
        reset_at: None,
        at_crossing: false,
        creating: None,
    };
    if path.len() == 0 {
        None
    } else if shape.anchor_at_parent {
        match base.history_idx {
            None => None,
            Some(idx) => match place_of(path, idx) {
                None => None,
                Some(p) => if shape.reset_at_crossing is Some {
                    None
                } else {
                    Some(PlanView { reset_at: Some((p + 1) as usize), ..plan })
                },
            },
        }
    } else {
        match shape.reset_at_crossing {
            None => Some(PlanView { creating: creating_step(env, base), ..plan }),
            Some(k) => {
                let pc = match shape.crossing_pc {
                    Some(p) => p,
                    None => anchor.pc,
                };
                let places = crossings(path, pc, path.len() - 1);
                if places.len() < k {
                    None
                } else {
                    Some(
                        PlanView {
                            reset_at: Some(places[places.len() - k]),
                            at_crossing: true,
                            ..plan
                        },
                    )
                }
            },
        }
    }
}

fn find_place(path: &Vec<Step>, idx: usize) -> (r: Option<usize>)
    ensures
        match r {
            Some(p) => place_of(path@, idx) == Some(p as int) && p < path@.len(),
            None => place_of(path@, idx) is None,
        },
{
    let mut i: usize = 0;
    assert(path@.take(0) =~= Seq::<Step>::empty());
    while i < path.len()
        invariant
            i <= path@.len(),
            place_of(path@.take(i as int), idx) is None,
        decreases path@.len() - i,
    {
        assert(path@.take(i + 1).drop_last() =~= path@.take(i as int));
        if path[i].idx == idx {
            proof {
                assert(place_of(path@.take(i + 1), idx) == Some(i as int));
                lemma_place_stays(path@, idx, i as int, i + 1);
            }
            return Some(i);
        }
        i += 1;
    }
    assert(path@.take(i as int) =~= path@);
    None
}

proof fn lemma_place_stays(path: Seq<Step>, idx: usize, p: int, n: int)
    requires
        0 <= n <= path.len(),
        place_of(path.take(n), idx) == Some(p),
    ensures
        place_of(path, idx) == Some(p),
    decreases path.len() - n,
{
    if n == path.len() {
        assert(path.take(n) =~= path);
    } else {
        assert(path.take(n + 1).drop_last() =~= path.take(n));
        lemma_place_stays(path, idx, p, n + 1);
    }
}

fn list_crossings(path: &Vec<Step>, pc: usize) -> (r: Vec<usize>)
    requires
        path@.len() > 0,
    ensures
        r@ == crossings(path@, pc, path@.len() - 1),
        forall|k: int| 0 <= k < r@.len() ==> 0 < (#[trigger] r@[k]) < path@.len() - 1,
{
    let mut out: Vec<usize> = Vec::new();
    let n: usize = path.len() - 1;
    if n == 0 {
        return out;
    }
    let mut i: usize = 1;
    while i < n
        invariant
            1 <= i <= n,
            n == path@.len() - 1,
            out@ == crossings(path@, pc, i as int),
            forall|k: int| 0 <= k < out@.len() ==> 0 < (#[trigger] out@[k]) < i,
        decreases n - i,
    {
        if path[i].pc == pc {
            out.push(i);
        }
        i += 1;
    }
    out
}

/// Plans a replay from a checkpoint to the access under check.
pub fn plan_replay(env: &VerifierEnv, base: u32, shape: ReplayShape) -> (r: Option<ReplayPlan>)
    requires
        countable(*env, base, shape),
    ensures
        match r {
            Some(p) => planned(*env, base, shape) == Some(p@) && p.path@.len() > 0 && (
            p.reset_at matches Some(i) ==> p.at_crossing ==> 0 < i),
            None => planned(*env, base, shape) is None,
        },
{
    let data = env.cache.data();
    let base_state = match data.state_by_cache_id(base) {
        Some((_, s)) => s,
        None => {
            return None;
        },
    };
    let anchor = if shape.anchor_at_parent {
        match base_state.parent_cache_id {
            Some(id) => match data.state_by_cache_id(id) {
                Some((_, s)) => {
                    let same = match (s.history_idx, base_state.history_idx) {
                        (Some(a), Some(b)) => a == b,
                        (None, None) => true,
                        _ => false,
                    };
                    if same {
                        return None;
                    }
                    s
                },
                None => {
                    return None;
                },
            },
            None => {
                return None;
            },
        }
    } else {
        base_state
    };
    let last: usize = match env.current_step_idx {
        Some(i) => i,
        None => {
            return None;
        },
    };
    let path = match recover_path(&env.history, last, anchor.history_idx) {
        Some(p) => p,
        None => {
            return None;
        },
    };
    if path.len() == 0 {
        return None;
    }
    let mut plan = ReplayPlan {
        start: anchor.duplicate(),
        path,
        reset_at: None,
        at_crossing: false,
        creating: None,
    };
    if shape.anchor_at_parent {
        let place = match base_state.history_idx {
            Some(idx) => find_place(&plan.path, idx),
            None => None,
        };
        match (place, shape.reset_at_crossing) {
            (Some(p), None) => {
                plan.reset_at = Some(p + 1);
                Some(plan)
            },
            _ => None,
        }
    } else {
        match shape.reset_at_crossing {
            None => {
                plan.creating = match base_state.history_idx {
                    Some(idx) => {
                        if idx < env.history.len() {
                            Some(
                                Step {
                                    idx,
                                    pc: env.history[idx].pc,
                                    instr: env.history[idx].instr,
                                },
                            )
                        } else {
                            None
                        }
                    },
                    None => None,
                };
                Some(plan)
            },
            Some(k) => {
                let pc: usize = match shape.crossing_pc {
                    Some(p) => p,
                    None => anchor.pc,
                };
                let places = list_crossings(&plan.path, pc);
                if places.len() < k {
                    return None;
                }
                plan.reset_at = Some(places[places.len() - k]);
                plan.at_crossing = true;
                Some(plan)
            },
        }
    }
}

/// A state on its way into a step of a replay up to a rejected access. Where the
/// symbolic side starts over at a crossing, the branch into it is recorded
/// again.
pub open spec fn before_reset_step(
    v: StateView,
    path: Seq<Step>,
    i: int,
    share: bool,
    at_crossing: bool,
) -> StateView {
    let w = restarted(StateView { pc: path[i].pc, ..v }, share);
    if at_crossing && i > 0 {
        entered_by(w, Some(path[i - 1]), path[i].pc)
    } else {
        w
    }
}

/// Starts the symbolic side over before a step.
pub fn enter_reset_step(
    state: &mut State,
    path: &Vec<Step>,
    i: usize,
    share: bool,
    at_crossing: bool,
)
    requires
        i < path@.len(),
    ensures
        final(state)@ == before_reset_step(old(state)@, path@, i as int, share, at_crossing),
{
    state.pc = path[i].pc;
    restart_symbolic(state, share);
    if at_crossing && i > 0 {
        let into = Some(path[i - 1]);
        record_entry(state, &into, path[i].pc);
    }
}

/// Executes a planned path again up to the access under check, which is not
/// executed. `None` where the execution leaves the path.
pub fn run_plan<E: Engine>(
    engine: &mut E,
    env: &mut VerifierEnv,
    plan: ReplayPlan,
    share: bool,
) -> (r: Option<State>)
    requires
        plan.path@.len() > 1,
    ensures
        final(env).counters == old(env).counters,
        r matches Some(s) ==> s.pc == plan.path@.last().pc,
        exists|moments: Seq<ReplayMoment<E>>, calls: Seq<ReplayedStep<E>>|
            {
                    &&& #[trigger] steps_replayed(Course::ToAccess {
                            reset_at: plan.reset_at,
                            at_crossing: plan.at_crossing,
                            share,
                        }, plan.path@, moments, calls)
                    &&& forall|i: int|
                        0 <= i < calls.len() ==> *final((#[trigger] calls[i]).engine) == moments[i
                            + 1].engine && *final(calls[i].env) == moments[i + 1].env
                    &&& moments[0] == (ReplayMoment {
                        engine: *old(engine),
                        env: *old(env),
                        state: Some(replay_start(plan.start@, plan.creating, plan.path@[0].pc, share)),
                    })
                    &&& moments.last().engine == *final(engine)
                    &&& moments.last().env == *final(env)
                    &&& ends_with(moments.last(), r)
                    &&& 0 < calls.len() < plan.path@.len()
                    &&& r is Some ==> calls.len() == plan.path@.len() - 1
                },
{
    let ghost course = Course::ToAccess {
        reset_at: plan.reset_at,
        at_crossing: plan.at_crossing,
        share,
    };
    let ghost engine0 = *engine;
    let ghost env0 = *env;
    let path = plan.path;
    let n: usize = path.len() - 1;
    let mut holder: State = begin_replay(&plan.start, &plan.creating, path[0].pc, share);
    let ghost first = holder@;
    let mut i: usize = 0;
    proof {
        let m = ReplayMoment { engine: engine0, env: env0, state: Some(first) };
        assert(steps_replayed(course, path@, seq![m], Seq::<ReplayedStep<E>>::empty()));
    }
    while i < n
        invariant
            i <= n,
            n == path@.len() - 1,
            path == plan.path,
            course == (Course::ToAccess {
                reset_at: plan.reset_at,
                at_crossing: plan.at_crossing,
                share,
            }),
            engine0 == *old(engine),
            env0 == *old(env),
            first == replay_start(plan.start@, plan.creating, path@[0].pc, share),
            env.counters == env0.counters,
            i > 0 ==> holder.pc == path@[i as int].pc,
            exists|moments: Seq<ReplayMoment<E>>, calls: Seq<ReplayedStep<E>>|
                {
                    &&& #[trigger] steps_replayed(course, path@, moments, calls)
                    &&& forall|i: int|
                        0 <= i < calls.len() ==> *final((#[trigger] calls[i]).engine) == moments[i
                            + 1].engine && *final(calls[i].env) == moments[i + 1].env
                    &&& moments[0] == (ReplayMoment {
                        engine: engine0,
                        env: env0,
                        state: Some(first),
                    })
                    &&& moments.last().engine == *engine
                    &&& moments.last().env == *env
                    &&& calls.len() == i && moments.last().state == Some(holder@)
                },
        decreases n - i,
    {
        let ghost here_engine = *engine;
        let ghost here_env = *env;
        let ghost here_state = holder@;
        let step = path[i];
        let here = match plan.reset_at {
            Some(k) => k == i,
            None => false,
        };
        let mut entering = holder;
        if here {
            enter_reset_step(&mut entering, &path, i, share, plan.at_crossing);
        } else {
            entering.pc = path[i].pc;
        }
        let next_pc: usize = path[i + 1].pc;
        let reply = replay_step(engine, env, entering, &step, next_pc);
        proof {
            assert(next_pc == leads_to(course, path@, i as int));
            assert(entering@ == entered(course, path@, i as int, here_state));
            let (moments, calls) = choose|
                moments: Seq<ReplayMoment<E>>,
                calls: Seq<ReplayedStep<E>>,
            |
                {
                    &&& #[trigger] steps_replayed(course, path@, moments, calls)
                    &&& forall|i: int|
                        0 <= i < calls.len() ==> *final((#[trigger] calls[i]).engine) == moments[i
                            + 1].engine && *final(calls[i].env) == moments[i + 1].env
                    &&& moments[0] == (ReplayMoment {
                        engine: engine0,
                        env: env0,
                        state: Some(first),
                    })
                    &&& moments.last().engine == here_engine
                    &&& moments.last().env == here_env
                    &&& calls.len() == i && moments.last().state == Some(here_state)
                };
            let (e, v) = choose|e: &mut E, v: &mut VerifierEnv|
                {
                    &&& #[trigger] call_ensures(
                        replay_step::<E>,
                        (e, v, entering, &step, next_pc),
                        reply,
                    )
                    &&& *e == here_engine
                    &&& *v == here_env
                    &&& *final(e) == *engine
                    &&& *final(v) == *env
                };
            let call = ReplayedStep { engine: e, env: v, entering, reply };
            let next = left_by(course, path@, i as int, reply);
            let now = ReplayMoment { engine: *engine, env: *env, state: next };
            let moments1 = moments.push(now);
            let calls1 = calls.push(call);
            assert(step_replayed(course, path@, i as int, moments.last(), call, next));
            assert forall|k: int| 0 <= k < calls1.len() implies step_replayed(
                course,
                path@,
                k,
                moments1[k],
                #[trigger] calls1[k],
                moments1[k + 1].state,
            ) by {
                if k < calls.len() {
                    assert(calls1[k] == calls[k]);
                    assert(moments1[k + 1] == moments[k + 1]);
                }
            }
            assert(steps_replayed(course, path@, moments1, calls1));
        }
        match reply {
            Some(s) => {
                holder = s;
            },
            None => {
                return None;
            },
        }
        i += 1;
    }
    Some(holder)
}

/// A run whose error and bundle are put aside while paths are replayed.
pub open spec fn put_aside(before: VerifierEnv, during: VerifierEnv) -> bool {
    &&& during == (VerifierEnv { error: None, bcf_proofs: during.bcf_proofs, ..before })
    &&& during.bcf_proofs@.len() == 0
}

/// A run whose error and bundle are put back.
pub open spec fn put_back<'a>(before: VerifierEnv<'a>, during: VerifierEnv<'a>) -> VerifierEnv<'a> {
    VerifierEnv { error: before.error, bcf_proofs: before.bcf_proofs, ..during }
}

/// Replays the path from a checkpoint up to the access under check, and returns
/// the state in which the access is reached. Where the checkpoint stands right
/// before the access, that is the checkpoint itself, without conditions. `None`
/// where the path cannot be recovered or the execution leaves it. An error that the
/// run already has is kept, and one that the replay meets is dropped with it. The
/// bundle is put aside meanwhile, so that a replay adds nothing to it.
pub fn replay_to_reject<E: Engine>(
    engine: &mut E,
    env: &mut VerifierEnv,
    base: u32,
    shape: ReplayShape,
) -> (r: Option<State>)
    requires
        countable(*old(env), base, shape),
    ensures
        final(env).counters == old(env).counters,
        final(env).error == old(env).error,
        final(env).bcf_proofs == old(env).bcf_proofs,
        match planned(*old(env), base, shape) {
            None => {
                r is None && *final(engine) == *old(engine) && *final(env) == *old(env)
            },
            Some(plan) => if plan.path.len() == 1 {
                &&& r is Some
                &&& r->0@ == (StateView {
                    pc: plan.path[0].pc,
                    ..restarted(plan.start, shape.share_slot_vars)
                })
                &&& *final(engine) == *old(engine)
                &&& *final(env) == *old(env)
            } else {
                exists|e: &mut E, v: &mut VerifierEnv, p: ReplayPlan, during: VerifierEnv|
                    {
                        &&& #[trigger] call_ensures(
                            run_plan::<E>,
                            (e, v, p, shape.share_slot_vars),
                            r,
                        )
                        &&& p@ == plan
                        &&& *e == *old(engine)
                        &&& #[trigger] put_aside(*old(env), during)
                        &&& *v == (VerifierEnv { replay_mode: true, ..during })
                        &&& *final(engine) == *final(e)
                        &&& *final(env) == put_back(
                            *old(env),
                            VerifierEnv { replay_mode: false, ..*final(v) },
                        )
                    }
            },
        },
        r matches Some(s) ==> (planned(*old(env), base, shape) matches Some(plan) && s.pc
            == plan.path.last().pc),
{
    let ghost env0 = *env;
    let plan = match plan_replay(&*env, base, shape) {
        Some(p) => p,
        None => {
            return None;
        },
    };
    if plan.path.len() == 1 {
        let mut state = plan.start;
        restart_symbolic(&mut state, shape.share_slot_vars);
        state.pc = plan.path[0].pc;
        return Some(state);
    }
    let mut saved_error: Option<VerificationError> = None;
    std::mem::swap(&mut saved_error, &mut env.error);
    let mut bundle: Vec<RefineEntry> = Vec::new();
    std::mem::swap(&mut bundle, &mut env.bcf_proofs);
    assert(put_aside(env0, *env));
    env.replay_mode = true;
    let r = run_plan(engine, env, plan, shape.share_slot_vars);
    env.replay_mode = false;
    env.error = saved_error;
    env.bcf_proofs = bundle;
    r
}

// ---------------------------------------------------------------------------
// Laws
// ---------------------------------------------------------------------------

/// A recovered path is one that was explored: it ends with the step it was asked
/// for, each step follows the one before it, the first one follows the stop or
/// starts the exploration, and the stop is not on it.
pub proof fn law_paths_were_explored(
    history: Seq<Breadcrumb>,
    last: usize,
    stop: Option<usize>,
    budget: nat,
)
    requires
        path_to(history, Some(last), stop, budget) is Some,
        stop != Some(last),
    ensures
        ({
            let path = path_to(history, Some(last), stop, budget)->0;
            &&& 0 < path.len() <= budget
            &&& path.last() == step_at(history, last)
            &&& history[path[0].idx as int].parent_idx == stop
                || history[path[0].idx as int].parent_idx is None
            &&& forall|i: int|
                0 < i < path.len() ==> history[(#[trigger] path[i]).idx as int].parent_idx == Some(
                    path[i - 1].idx,
                )
            &&& forall|i: int|
                0 <= i < path.len() ==> Some((#[trigger] path[i]).idx) != stop && path[i]
                    == step_at(history, path[i].idx)
        }),
    decreases budget,
{
    let path = path_to(history, Some(last), stop, budget)->0;
    let above = history[last as int].parent_idx;
    let p = path_to(history, above, stop, (budget - 1) as nat)->0;
    assert(path == p.push(step_at(history, last)));
    match above {
        None => {
            assert(p.len() == 0);
        },
        Some(idx) => {
            if above == stop {
                assert(p.len() == 0);
            } else {
                law_paths_were_explored(history, idx, stop, (budget - 1) as nat);
                assert forall|i: int| 0 < i < path.len() implies history[(
                #[trigger] path[i]).idx as int].parent_idx == Some(path[i - 1].idx) by {
                    if i < p.len() {
                        assert(path[i] == p[i]);
                        assert(path[i - 1] == p[i - 1]);
                    } else {
                        assert(path[i - 1] == p.last());
                    }
                }
                assert(path[0] == p[0]);
            }
        },
    }
}

/// A replay is tried plainly first; each other try starts over at a conditional
/// jump or right behind a call.
pub proof fn law_reset_points(path: Seq<Step>, n: nat, k: int)
    requires
        n <= path.len(),
        n <= usize::MAX,
        0 <= k < reset_points(path, n).len(),
    ensures
        reset_points(path, n)[0] == (ResetPoint { at: None, before: false }),
        k > 0 ==> (reset_points(path, n)[k].at matches Some(i) && i < n && (path[i as int].instr
            is If || (i > 0 && path[i - 1].instr is Call))),
    decreases n,
{
    if n > 0 {
        let m = (n - 1) as nat;
        let earlier = reset_points(path, m);
        if k < earlier.len() {
            law_reset_points(path, m, k);
        } else {
            lemma_reset_points_start(path, m);
            law_reset_points(path, m, 0);
        }
    }
}

proof fn lemma_reset_points_start(path: Seq<Step>, n: nat)
    ensures
        reset_points(path, n).len() > 0,
    decreases n,
{
    if n > 0 {
        lemma_reset_points_start(path, (n - 1) as nat);
    }
}

/// Where the symbolic side of a state starts over, no condition, no term and no
/// binding is left; whether terms are shared with stack slots stays.
pub proof fn law_starting_over(v: StateView, share: bool)
    ensures
        restarted(v, share).bcf matches Some(b) && b.conds.len() == 0 && b.terms.len() == 0
            && forall|i: int| 0 <= i < 10 ==> (#[trigger] b.bindings[i]) is None,
        shares_slots(restarted(v, share)) == (share || shares_slots(v)),
        restarted(restarted(v, share), share) == restarted(v, share),
{
    assert(restarted(restarted(v, share), share).frames =~= restarted(v, share).frames) by {
        assert forall|i: int| 0 <= i < v.frames.len() implies #[trigger] restarted(
            restarted(v, share),
            share,
        ).frames[i] == restarted(v, share).frames[i] by {
            assert(termless_frame(termless_frame(v.frames[i])).slots =~= termless_frame(
                v.frames[i],
            ).slots);
        }
    }
}

}
