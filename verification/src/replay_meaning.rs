//! That replays ask about the path that was explored: what they record is what its
//! jumps did, and they start over where they are meant to.

use vstd::prelude::*;

use crate::ast::{CmpOp, Instr};
use crate::branch::side_of;
use crate::env::{Breadcrumb, VerifierEnv};
use crate::machine::{State, StateView};
use crate::meaning::{
    blank_table, compared_at, jump_leads, lemma_recorded, lemma_side, lemma_table_fits,
    number_operands, operand_value, relation_at, says, says_side, table_ok,
};
use crate::record::{recorded, BranchSide};
use crate::replay::{
    begin_replay, branch_recorded, crossings, leave_step, list_reset_points, path_to, place_of,
    plan_replay, record_entry, recover_path, reset_points, restarted, step_at, ReplayPlan,
    ReplayShape, ResetPoint, Step, PATH_BUDGET,
};

verus! {

// ---------------------------------------------------------------------------
// Jumps on a path
// ---------------------------------------------------------------------------

/// Whether an instruction is a conditional jump whose condition can be recorded: any
/// but a bit test, with numbers for operands.
pub open spec fn recordable_jump(v: StateView, instr: Instr) -> bool {
    instr is If && instr->If_op != CmpOp::Test && number_operands(
        v,
        instr->If_left,
        instr->If_right,
    )
}

/// Whether the last condition is that a conditional jump at `pc` goes to `next_pc`.
pub open spec fn says_step(
    before: StateView,
    after: StateView,
    instr: Instr,
    pc: usize,
    next_pc: usize,
) -> bool {
    says(
        before,
        after,
        instr->If_left,
        instr->If_right,
        |regs: Seq<u64>| jump_leads(instr, pc, regs) == next_pc,
    )
}

/// Whether a state has an empty table and the same registers as another.
pub open spec fn starts_blank_from(w: StateView, v: StateView) -> bool {
    blank_table(w) && w.regs == v.regs
}

/// Whether `next_pc` tells the sides of a conditional jump apart, and is one of them.
pub open spec fn one_side(instr: Instr, pc: usize, next_pc: usize) -> bool {
    instr->If_target != pc + 1 && (next_pc == instr->If_target || next_pc == pc + 1)
}

proof fn lemma_branch(v: StateView, w: StateView, instr: Instr, pc: usize, taken: bool)
    requires
        v.regs.len() == 11,
        v.bcf is Some,
        table_ok(v.bcf->0),
        recordable_jump(v, instr),
        w == branch_recorded(v, instr, pc, taken),
        w.bcf matches Some(t) ==> t.terms.len() <= usize::MAX,
    ensures
        says_side(v, w, instr, taken),
        w.regs == v.regs,
        w.pc == v.pc,
{
    let s = BranchSide {
        narrowed: None,
        ..side_of(instr, pc, v.regs[instr->If_left.spec_index()].bounds, taken)
    };
    assert(w == recorded(v, s));
    lemma_recorded(v, s);
    lemma_side(s, instr, taken);
    let f = |regs: Seq<u64>| compared_at(s, regs);
    let g = |regs: Seq<u64>|
        relation_at(
            instr->If_width,
            instr->If_op,
            regs[instr->If_left.spec_index()],
            operand_value(instr->If_right, regs),
        ) == taken;
    assert(f =~= g);
}

proof fn lemma_side_is_step(
    v: StateView,
    w: StateView,
    instr: Instr,
    pc: usize,
    next_pc: usize,
)
    requires
        instr is If,
        one_side(instr, pc, next_pc),
        says_side(v, w, instr, next_pc == instr->If_target),
    ensures
        says_step(v, w, instr, pc, next_pc),
{
    let taken = next_pc == instr->If_target;
    let f = |regs: Seq<u64>|
        relation_at(
            instr->If_width,
            instr->If_op,
            regs[instr->If_left.spec_index()],
            operand_value(instr->If_right, regs),
        ) == taken;
    let g = |regs: Seq<u64>| jump_leads(instr, pc, regs) == next_pc;
    assert(f =~= g);
}

/// Behind a conditional jump at which the symbolic side starts over, the one branch
/// condition of the new table is that the jump went to the next step of the path: it
/// holds of registers exactly where the jump, executed on them, is taken, if the
/// next step is its target, and exactly where it is not, if it is another.
pub proof fn law_restarted_jumps_go_on_along_the_path(
    state: &mut State,
    step: Step,
    next_pc: usize,
)
    requires
        call_ensures(leave_step, (state, &step, next_pc), ()),
        recordable_jump((*state)@, step.instr),
    ensures
        exists|w: StateView|
            {
                &&& #[trigger] starts_blank_from(w, old(state)@)
                &&& says_side(
                    w,
                    final(state)@,
                    step.instr,
                    next_pc == step.instr->If_target,
                )
                &&& one_side(step.instr, step.pc, next_pc) ==> says_step(
                    w,
                    final(state)@,
                    step.instr,
                    step.pc,
                    next_pc,
                )
            },
        final(state)@.regs == old(state)@.regs,
        final(state)@.pc == old(state)@.pc,
{
    lemma_table_fits(*state);
    lemma_table_fits(*final(state));
    let v = (*state)@;
    let w = restarted(v, false);
    let taken = next_pc == step.instr->If_target;
    assert(starts_blank_from(w, v));
    lemma_branch(w, (*final(state))@, step.instr, step.pc, taken);
    if one_side(step.instr, step.pc, next_pc) {
        lemma_side_is_step(w, (*final(state))@, step.instr, step.pc, next_pc);
    }
}

/// Behind any other instruction, and behind a bit test, nothing starts over.
pub proof fn law_other_steps_are_left_alone(state: &mut State, step: Step, next_pc: usize)
    requires
        call_ensures(leave_step, (state, &step, next_pc), ()),
        !(step.instr is If) || step.instr->If_op == CmpOp::Test,
    ensures
        final(state)@ == old(state)@,
{
}

/// The branch that led to a place leaves the condition that it led there.
pub proof fn law_entries_go_to_the_next_step(state: &mut State, step: Step, next_pc: usize)
    requires
        call_ensures(record_entry, (state, &Some(step), next_pc), ()),
        (*state)@.bcf matches Some(b) && table_ok(b),
        recordable_jump((*state)@, step.instr),
        one_side(step.instr, step.pc, next_pc),
    ensures
        says_step(old(state)@, final(state)@, step.instr, step.pc, next_pc),
        final(state)@.regs == old(state)@.regs,
{
    lemma_table_fits(*state);
    lemma_table_fits(*final(state));
    let v = (*state)@;
    lemma_branch(
        v,
        (*final(state))@,
        step.instr,
        step.pc,
        next_pc == step.instr->If_target,
    );
    lemma_side_is_step(v, (*final(state))@, step.instr, step.pc, next_pc);
}

/// Steps that are no conditional jump, and bit tests, leave no condition where they
/// lead to.
pub proof fn law_other_entries_say_nothing(
    state: &mut State,
    step: Option<Step>,
    next_pc: usize,
)
    requires
        call_ensures(record_entry, (state, &step, next_pc), ()),
        step matches Some(s) ==> !(s.instr is If) || s.instr->If_op == CmpOp::Test,
    ensures
        final(state)@ == old(state)@,
{
}

/// A replay starts with the checkpoint's registers and with one branch condition at
/// most: that the branch which created the checkpoint led to the first step.
pub proof fn law_replays_start_with_their_creation(
    from: State,
    creating: Option<Step>,
    first_pc: usize,
    share: bool,
    r: State,
)
    requires
        call_ensures(begin_replay, (&from, &creating, first_pc, share), r),
    ensures
        r@.regs == from@.regs,
        r@.pc == from@.pc,
        (creating matches Some(s) ==> !(s.instr is If) || s.instr->If_op == CmpOp::Test)
            ==> blank_table(r@),
        creating matches Some(s) ==> recordable_jump(from@, s.instr) && one_side(
            s.instr,
            s.pc,
            first_pc,
        ) ==> exists|w: StateView|
            #[trigger] starts_blank_from(w, from@) && says_step(
                w,
                r@,
                s.instr,
                s.pc,
                first_pc,
            ),
{
    lemma_table_fits(from);
    lemma_table_fits(r);
    let w = restarted(from@, share);
    assert(starts_blank_from(w, from@));
    match creating {
        Some(s) => {
            if recordable_jump(from@, s.instr) && one_side(s.instr, s.pc, first_pc) {
                lemma_branch(w, r@, s.instr, s.pc, first_pc == s.instr->If_target);
                lemma_side_is_step(w, r@, s.instr, s.pc, first_pc);
            }
        },
        None => {},
    }
}

// ---------------------------------------------------------------------------
// Paths
// ---------------------------------------------------------------------------

/// Whether a row of places of the history is a path from behind `stop` to `last`: each
/// was explored right after the one before it.
pub open spec fn explored_row(
    history: Seq<Breadcrumb>,
    row: Seq<usize>,
    last: usize,
    stop: Option<usize>,
) -> bool {
    &&& row.len() > 0
    &&& row.last() == last
    &&& forall|i: int|
        0 <= i < row.len() ==> (#[trigger] row[i]) < history.len() && Some(row[i]) != stop
    &&& forall|i: int|
        0 < i < row.len() ==> history[(#[trigger] row[i]) as int].parent_idx == Some(row[i - 1])
    &&& history[row[0] as int].parent_idx == stop || history[row[0] as int].parent_idx is None
}

/// Whether the steps of a path are those at a row of places of the history.
pub open spec fn steps_at(history: Seq<Breadcrumb>, path: Seq<Step>, row: Seq<usize>) -> bool {
    &&& path.len() == row.len()
    &&& forall|i: int|
        0 <= i < path.len() ==> (#[trigger] path[i]).idx == row[i] && path[i].pc
            == history[row[i] as int].pc && path[i].instr == history[row[i] as int].instr
}

proof fn lemma_row_is_found(
    history: Seq<Breadcrumb>,
    row: Seq<usize>,
    last: usize,
    stop: Option<usize>,
    budget: nat,
)
    requires
        explored_row(history, row, last, stop),
        row.len() <= budget,
    ensures
        path_to(history, Some(last), stop, budget) matches Some(p) && steps_at(history, p, row),
    decreases budget,
{
    let n = row.len() - 1;
    assert(row[n] == last);
    assert(history[row[n] as int].parent_idx == history[last as int].parent_idx);
    if n == 0 {
        let above = history[last as int].parent_idx;
        assert(path_to(history, above, stop, (budget - 1) as nat) == Some(Seq::<Step>::empty()));
    } else {
        let rest = row.drop_last();
        let before = row[n - 1];
        assert forall|i: int| 0 < i < rest.len() implies history[(
        #[trigger] rest[i]) as int].parent_idx == Some(rest[i - 1]) by {
            assert(rest[i] == row[i]);
        }
        assert forall|i: int| 0 <= i < rest.len() implies (#[trigger] rest[i]) < history.len()
            && Some(rest[i]) != stop by {
            assert(rest[i] == row[i]);
        }
        assert(rest[0] == row[0]);
        lemma_row_is_found(history, rest, before, stop, (budget - 1) as nat);
        let p = path_to(history, Some(before), stop, (budget - 1) as nat)->0;
        let q = path_to(history, Some(last), stop, budget)->0;
        assert(q == p.push(step_at(history, last)));
        assert forall|i: int| 0 <= i < q.len() implies (#[trigger] q[i]).idx == row[i] && q[i].pc
            == history[row[i] as int].pc && q[i].instr == history[row[i] as int].instr by {
            if i < p.len() {
                assert(q[i] == p[i]);
                assert(rest[i] == row[i]);
            }
        }
    }
}

proof fn lemma_path_is_row(
    history: Seq<Breadcrumb>,
    last: usize,
    stop: Option<usize>,
    budget: nat,
)
    requires
        path_to(history, Some(last), stop, budget) is Some,
        stop != Some(last),
    ensures
        ({
            let p = path_to(history, Some(last), stop, budget)->0;
            let row = p.map_values(|x: Step| x.idx);
            p.len() <= budget && explored_row(history, row, last, stop) && steps_at(
                history,
                p,
                row,
            )
        }),
    decreases budget,
{
    let p = path_to(history, Some(last), stop, budget)->0;
    let row = p.map_values(|x: Step| x.idx);
    let above = history[last as int].parent_idx;
    let q = path_to(history, above, stop, (budget - 1) as nat)->0;
    assert(p == q.push(step_at(history, last)));
    if above is None || above == stop {
        assert(q.len() == 0);
        assert(row[0] == last);
    } else {
        lemma_path_is_row(history, above->0, stop, (budget - 1) as nat);
        let rest = q.map_values(|x: Step| x.idx);
        assert forall|i: int| 0 <= i < q.len() implies #[trigger] row[i] == rest[i] by {}
        assert(rest.last() == above->0);
        assert forall|i: int| 0 < i < row.len() implies history[(
        #[trigger] row[i]) as int].parent_idx == Some(row[i - 1]) by {
            if i < q.len() {
                assert(row[i] == rest[i] && row[i - 1] == rest[i - 1]);
            }
        }
        assert forall|i: int| 0 <= i < row.len() implies (#[trigger] row[i]) < history.len()
            && Some(row[i]) != stop by {
            if i < q.len() {
                assert(row[i] == rest[i]);
            }
        }
        assert(row[0] == rest[0]);
        assert forall|i: int| 0 <= i < p.len() implies (#[trigger] p[i]).idx == row[i] && p[i].pc
            == history[row[i] as int].pc && p[i].instr == history[row[i] as int].instr by {
            if i < q.len() {
                assert(p[i] == q[i]);
                assert(row[i] == rest[i]);
            }
        }
    }
}

/// A recovered path is the row of steps that was explored up to the last one, from
/// behind the stop on, in the order of execution. Every such row of at most two
/// hundred thousand steps is recovered, and none that is longer.
pub proof fn law_explored_rows_are_recovered(
    history: Vec<Breadcrumb>,
    last: usize,
    stop: Option<usize>,
    r: Option<Vec<Step>>,
)
    requires
        call_ensures(recover_path, (&history, last, stop), r),
        stop != Some(last),
    ensures
        r matches Some(p) ==> p@.len() <= 200_000 && exists|row: Seq<usize>|
            #[trigger] explored_row(history@, row, last, stop) && steps_at(history@, p@, row),
        forall|row: Seq<usize>| #[trigger]
            explored_row(history@, row, last, stop) && row.len() <= 200_000 ==> (
            r matches Some(p) && steps_at(history@, p@, row)),
{
    if r is Some {
        lemma_path_is_row(history@, last, stop, 200_000);
        let row = r->0@.map_values(|x: Step| x.idx);
        assert(explored_row(history@, row, last, stop));
    }
    assert forall|row: Seq<usize>| #[trigger]
        explored_row(history@, row, last, stop) && row.len() <= 200_000 implies (
    r matches Some(p) && steps_at(history@, p@, row)) by {
        lemma_row_is_found(history@, row, last, stop, 200_000);
    }
}

/// A path that stops where it ends is empty.
pub proof fn law_paths_to_the_stop_are_empty(
    history: Vec<Breadcrumb>,
    last: usize,
    r: Option<Vec<Step>>,
)
    requires
        call_ensures(recover_path, (&history, last, Some(last)), r),
    ensures
        r matches Some(p) && p@.len() == 0,
{
}

// ---------------------------------------------------------------------------
// Reset points
// ---------------------------------------------------------------------------

proof fn lemma_points_complete(path: Seq<Step>, n: nat, i: usize)
    requires
        n <= path.len(),
        n <= usize::MAX,
        i < n,
    ensures
        path[i as int].instr is If ==> reset_points(path, n).contains(
            ResetPoint { at: Some(i), before: false },
        ) && reset_points(path, n).contains(ResetPoint { at: Some(i), before: true }),
        i > 0 && path[i - 1].instr is Call ==> reset_points(path, n).contains(
            ResetPoint { at: Some(i), before: true },
        ),
    decreases n,
{
    let m = (n - 1) as usize;
    let earlier = reset_points(path, (n - 1) as nat);
    let all = reset_points(path, n);
    let behind = ResetPoint { at: Some(i), before: false };
    let before = ResetPoint { at: Some(i), before: true };
    if i < m {
        lemma_points_complete(path, (n - 1) as nat, i);
        if earlier.contains(behind) {
            let k = choose|k: int| 0 <= k < earlier.len() && earlier[k] == behind;
            assert(all[k] == behind);
        }
        if earlier.contains(before) {
            let k = choose|k: int| 0 <= k < earlier.len() && earlier[k] == before;
            assert(all[k] == before);
        }
    } else {
        let k = earlier.len() as int;
        if path[i as int].instr is If {
            assert(all[k] == behind);
            assert(all[k + 1] == before);
        }
        if i > 0 && path[i - 1].instr is Call {
            assert(all[all.len() - 1] == before);
        }
    }
}

/// A path is first replayed as it is; then with the symbolic side starting over once,
/// at each of these places and no others: behind each conditional jump, before each
/// conditional jump, and before each step that follows a call.
pub proof fn law_every_reset_point_is_tried(path: Vec<Step>, n: usize, r: Vec<ResetPoint>)
    requires
        n <= path@.len(),
        call_ensures(list_reset_points, (&path, n), r),
    ensures
        r@.len() > 0 && r@[0].at is None,
        forall|i: usize|
            #![trigger path@[i as int]]
            i < n && path@[i as int].instr is If ==> r@.contains(
                ResetPoint { at: Some(i), before: false },
            ) && r@.contains(ResetPoint { at: Some(i), before: true }),
        forall|i: usize|
            #![trigger path@[i as int]]
            0 < i < n && path@[i - 1].instr is Call ==> r@.contains(
                ResetPoint { at: Some(i), before: true },
            ),
        forall|k: int|
            #![trigger r@[k]]
            0 < k < r@.len() ==> (r@[k].at matches Some(i) && i < n && (path@[i as int].instr
                is If || (r@[k].before && i > 0 && path@[i - 1].instr is Call))),
{
    assert forall|i: usize|
        #![trigger path@[i as int]]
        i < n && path@[i as int].instr is If implies r@.contains(
        ResetPoint { at: Some(i), before: false },
    ) && r@.contains(ResetPoint { at: Some(i), before: true }) by {
        lemma_points_complete(path@, n as nat, i);
    }
    assert forall|i: usize|
        #![trigger path@[i as int]]
        0 < i < n && path@[i - 1].instr is Call implies r@.contains(
        ResetPoint { at: Some(i), before: true },
    ) by {
        lemma_points_complete(path@, n as nat, i);
    }
    lemma_points_sound(path@, n as nat);
}

proof fn lemma_points_sound(path: Seq<Step>, n: nat)
    requires
        n <= path.len(),
        n <= usize::MAX,
    ensures
        reset_points(path, n).len() > 0,
        reset_points(path, n)[0].at is None,
        forall|k: int|
            #![trigger reset_points(path, n)[k]]
            0 < k < reset_points(path, n).len() ==> (reset_points(path, n)[k].at matches Some(i)
                && i < n && (path[i as int].instr is If || (reset_points(path, n)[k].before && i > 0
                && path[i - 1].instr is Call))),
    decreases n,
{
    if n > 0 {
        lemma_points_sound(path, (n - 1) as nat);
        let earlier = reset_points(path, (n - 1) as nat);
        let all = reset_points(path, n);
        assert(all[0] == earlier[0]);
        assert forall|k: int|
            #![trigger reset_points(path, n)[k]]
            0 < k < reset_points(path, n).len() implies (
        reset_points(path, n)[k].at matches Some(i) && i < n && (path[i as int].instr is If || (
        reset_points(path, n)[k].before && i > 0 && path[i - 1].instr is Call))) by {
            if k < earlier.len() {
                assert(all[k] == earlier[k]);
            }
        }
    }
}

// ---------------------------------------------------------------------------
// Plans
// ---------------------------------------------------------------------------

/// How often a path comes by `pc` from one place up to another.
pub open spec fn visits(path: Seq<Step>, pc: usize, from: int, to: int) -> nat
    decreases to - from,
{
    if to <= from {
        0
    } else {
        visits(path, pc, from, to - 1) + if path[to - 1].pc == pc {
            1nat
        } else {
            0
        }
    }
}

proof fn lemma_crossings(path: Seq<Step>, pc: usize, n: int)
    requires
        n <= path.len(),
        path.len() <= usize::MAX,
    ensures
        crossings(path, pc, n).len() == visits(path, pc, 1, n),
        forall|j: int|
            #![trigger crossings(path, pc, n)[j]]
            0 <= j < crossings(path, pc, n).len() ==> {
                let p = crossings(path, pc, n)[j];
                0 < p < n && path[p as int].pc == pc && visits(path, pc, p + 1, n) == crossings(
                    path,
                    pc,
                    n,
                ).len() - j - 1
            },
    decreases n,
{
    if n > 1 {
        lemma_crossings(path, pc, n - 1);
        let earlier = crossings(path, pc, n - 1);
        let all = crossings(path, pc, n);
        assert forall|j: int|
            #![trigger crossings(path, pc, n)[j]]
            0 <= j < all.len() implies {
            let p = crossings(path, pc, n)[j];
            0 < p < n && path[p as int].pc == pc && visits(path, pc, p + 1, n) == all.len() - j - 1
        } by {
            if j < earlier.len() {
                assert(all[j] == earlier[j]);
            }
        }
    }
}

/// The checkpoint that bears a number.
pub open spec fn checkpoint(env: VerifierEnv, id: u32) -> Option<State> {
    match env.cache@.resolve(id) {
        Some(e) => Some(e.1),
        None => None,
    }
}

/// The place that a shape looks for on a path.
pub open spec fn crossed_pc(shape: ReplayShape, start: StateView) -> usize {
    match shape.crossing_pc {
        Some(pc) => pc,
        None => start.pc,
    }
}

/// Where a plan starts over at a crossing, it does so at the one that was asked for,
/// counted from the end: between the ends of the path, at the place in question, and
/// with one less than that many later visits of it before the end. There is no such
/// plan where the path comes by less often.
pub proof fn law_crossings_count_from_the_end(
    env: VerifierEnv,
    base: u32,
    shape: ReplayShape,
    k: usize,
    r: Option<ReplayPlan>,
)
    requires
        call_ensures(plan_replay, (&env, base, shape), r),
        !shape.anchor_at_parent,
        shape.reset_at_crossing == Some(k),
        k > 0,
    ensures
        r matches Some(plan) ==> {
            &&& plan.at_crossing
            &&& plan.creating is None
            &&& plan.reset_at matches Some(p) && 0 < p < plan.path@.len() - 1 && plan.path@[p as int].pc
                == crossed_pc(shape, plan.start@) && visits(
                plan.path@,
                crossed_pc(shape, plan.start@),
                p + 1,
                plan.path@.len() - 1,
            ) == k - 1
            &&& checkpoint(env, base) matches Some(e) && plan.start@ == e@
        },
        r is None ==> forall|path: Vec<Step>|
            checkpoint(env, base) is Some && env.current_step_idx is Some && #[trigger] call_ensures(
                recover_path,
                (
                    &env.history,
                    env.current_step_idx->0,
                    checkpoint(env, base)->0.history_idx,
                ),
                Some(path),
            ) ==> visits(
                path@,
                crossed_pc(shape, checkpoint(env, base)->0@),
                1,
                path@.len() - 1,
            ) < k,
{
    match r {
        Some(plan) => {
            let path = plan.path@;
            let pc = crossed_pc(shape, plan.start@);
            assert(plan.path.len() == path.len());
            lemma_crossings(path, pc, path.len() - 1);
            let places = crossings(path, pc, path.len() - 1);
            assert(plan@.reset_at == Some(places[places.len() - k]));
        },
        None => {
            assert forall|path: Vec<Step>|
                checkpoint(env, base) is Some && env.current_step_idx is Some
                    && #[trigger] call_ensures(
                    recover_path,
                    (
                        &env.history,
                        env.current_step_idx->0,
                        checkpoint(env, base)->0.history_idx,
                    ),
                    Some(path),
                ) implies visits(
                path@,
                crossed_pc(shape, checkpoint(env, base)->0@),
                1,
                path@.len() - 1,
            ) < k by {
                assert(path.len() == path@.len());
                lemma_crossings(
                    path@,
                    crossed_pc(shape, checkpoint(env, base)->0@),
                    path@.len() - 1,
                );
            }
        },
    }
}

proof fn lemma_first_place(path: Seq<Step>, idx: usize)
    ensures
        place_of(path, idx) matches Some(p) ==> 0 <= p < path.len() && path[p].idx == idx
            && forall|j: int| 0 <= j < p ==> (#[trigger] path[j]).idx != idx,
        place_of(path, idx) is None ==> forall|j: int|
            0 <= j < path.len() ==> (#[trigger] path[j]).idx != idx,
    decreases path.len(),
{
    if path.len() > 0 {
        let rest = path.drop_last();
        lemma_first_place(rest, idx);
        assert forall|j: int| 0 <= j < rest.len() implies rest[j] == #[trigger] path[j] by {}
        if place_of(path, idx) is None {
            assert forall|j: int| 0 <= j < path.len() implies (#[trigger] path[j]).idx != idx by {
                if j < rest.len() {
                    assert(rest[j].idx != idx);
                }
            }
        } else {
            let p = place_of(path, idx)->0;
            assert forall|j: int| 0 <= j < p implies (#[trigger] path[j]).idx != idx by {
                assert(rest[j].idx != idx);
            }
        }
    }
}

/// A plan from the parent starts with the checkpoint above the base, and starts over
/// right behind the step that led to the base. There is none where both checkpoints
/// were made by the same step.
pub proof fn law_plans_from_the_parent_start_over_at_the_base(
    env: VerifierEnv,
    base: u32,
    shape: ReplayShape,
    plan: ReplayPlan,
)
    requires
        call_ensures(plan_replay, (&env, base, shape), Some(plan)),
        shape.anchor_at_parent,
    ensures
        ({
            &&& checkpoint(env, base) matches Some(b)
            &&& b.parent_cache_id matches Some(id)
            &&& checkpoint(env, id) matches Some(parent)
            &&& plan.start@ == parent@
            &&& parent.history_idx != b.history_idx
            &&& shape.reset_at_crossing is None
            &&& !plan.at_crossing && plan.creating is None
            &&& plan.reset_at matches Some(p) && 0 < p <= plan.path@.len()
                && b.history_idx == Some(plan.path@[p - 1].idx)
        }),
{
    let b = checkpoint(env, base)->0;
    assert(plan.path.len() == plan.path@.len());
    lemma_first_place(plan.path@, b.history_idx->0);
}

/// A plan from the base itself that asks for no crossing never starts over; its first
/// condition is that of the step that led to the base.
pub proof fn law_plain_plans_start_with_their_creation(
    env: VerifierEnv,
    base: u32,
    shape: ReplayShape,
    plan: ReplayPlan,
)
    requires
        call_ensures(plan_replay, (&env, base, shape), Some(plan)),
        !shape.anchor_at_parent,
        shape.reset_at_crossing is None,
    ensures
        ({
            &&& checkpoint(env, base) matches Some(b)
            &&& plan.start@ == b@
            &&& plan.reset_at is None
            &&& plan.creating is Some <==> (b.history_idx matches Some(i) && i
                < env.history@.len())
            &&& plan.creating matches Some(s) ==> Some(s.idx) == b.history_idx && s.pc
                == env.history@[s.idx as int].pc && s.instr == env.history@[s.idx as int].instr
        }),
{
}

/// Every plan leads to the step under way, along the steps that were explored, from
/// behind the checkpoint it starts with.
pub proof fn law_plans_lead_to_the_step_under_way(
    env: VerifierEnv,
    base: u32,
    shape: ReplayShape,
    plan: ReplayPlan,
)
    requires
        call_ensures(plan_replay, (&env, base, shape), Some(plan)),
    ensures
        env.current_step_idx is Some,
        exists|row: Seq<usize>|
            #[trigger] explored_row(
                env.history@,
                row,
                env.current_step_idx->0,
                plan.start@.history_idx,
            ) && steps_at(env.history@, plan.path@, row),
{
    let last = env.current_step_idx->0;
    let stop = plan.start@.history_idx;
    assert(path_to(env.history@, Some(last), stop, PATH_BUDGET as nat) == Some(plan.path@));
    assert(stop != Some(last));
    lemma_path_is_row(env.history@, last, stop, PATH_BUDGET as nat);
    let row = plan.path@.map_values(|x: Step| x.idx);
    assert(explored_row(env.history@, row, last, stop));
}

}
