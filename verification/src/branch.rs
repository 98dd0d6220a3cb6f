//! Conditional jumps.

use vstd::prelude::*;

use crate::ast::{CmpOp, Instr, Operand, Reg, Width};
use crate::cache::StateCache;
use crate::emit::var_regs;
use crate::engine::Engine;
use crate::env::{Breadcrumb, VerifierEnv};
use crate::machine::{NumericDomain, RegType, State, StateView};
use crate::pruning::{differ_in_cache, sat32};
use crate::record::{
    code_of_side, immediate, immediate_value, record_path_cond_for_side, recorded, side_code,
    BranchSide,
};
use crate::symbolic::{RegBounds, BPF_JEQ, BPF_JNE};
use crate::unreachable::try_emit_path_unreachable_entry;

verus! {

// ---------------------------------------------------------------------------
// Registers that are known to be equal
// ---------------------------------------------------------------------------

/// The class of equal numbers that a register belongs to.
pub open spec fn scalar_class(v: StateView, r: Reg) -> Option<u32> {
    let info = v.regs[r.spec_index()];
    if info.ty == RegType::ScalarValue {
        info.scalar_id
    } else {
        None
    }
}

/// The registers of a class.
pub open spec fn class_regs(v: StateView, class: Option<u32>) -> Seq<Reg> {
    match class {
        Some(id) => var_regs().filter(|r: Reg| v.regs[r.spec_index()].scalar_id == Some(id)),
        None => Seq::empty(),
    }
}

/// The class of the right operand, where it is a register.
pub open spec fn right_class(v: StateView, right: Operand) -> Option<u32> {
    match right {
        Operand::Reg(r) => scalar_class(v, r),
        Operand::Imm(c) => None,
    }
}

/// The registers that are known to be equal to an operand of a comparison: first
/// to the right one, then to the left one.
pub open spec fn linked_regs(v: StateView, left: Reg, right: Operand) -> Seq<Reg> {
    let rc = right_class(v, right);
    let lc = scalar_class(v, left);
    if rc == lc {
        class_regs(v, rc)
    } else {
        class_regs(v, rc) + class_regs(v, lc)
    }
}

fn class_of(state: &State, r: Reg) -> (c: Option<u32>)
    ensures
        c == scalar_class(state@, r),
{
    let info = state.reg(r);
    match info.ty {
        RegType::ScalarValue => info.scalar_id,
        _ => None,
    }
}

fn push_class(state: &State, class: Option<u32>, out: &mut Vec<Reg>)
    ensures
        final(out)@ == old(out)@ + class_regs(state@, class),
{
    let id: u32 = match class {
        Some(id) => id,
        None => {
            assert(out@ =~= old(out)@ + Seq::<Reg>::empty());
            return;
        },
    };
    let regs: [Reg; 10] = [
        Reg::R0,
        Reg::R1,
        Reg::R2,
        Reg::R3,
        Reg::R4,
        Reg::R5,
        Reg::R6,
        Reg::R7,
        Reg::R8,
        Reg::R9,
    ];
    let ghost keep = |r: Reg| state@.regs[r.spec_index()].scalar_id == Some(id);
    let ghost out0 = out@;
    let mut i: usize = 0;
    proof {
        assert(regs@ =~= var_regs());
        reveal(Seq::filter);
        assert(var_regs().take(0) =~= Seq::<Reg>::empty());
        assert(out0 + Seq::<Reg>::empty() =~= out0);
    }
    while i < 10
        invariant
            i <= 10,
            regs@ == var_regs(),
            keep == (|r: Reg| state@.regs[r.spec_index()].scalar_id == Some(id)),
            out@ == out0 + var_regs().take(i as int).filter(keep),
        decreases 10 - i,
    {
        let r = regs[i];
        let own = match state.reg(r).scalar_id {
            Some(k) => k == id,
            None => false,
        };
        proof {
            let more = var_regs().take(i + 1);
            assert(more.drop_last() =~= var_regs().take(i as int));
            assert(more.last() == r);
            reveal(Seq::filter);
            assert(own == keep(r));
            if own {
                assert(out@.push(r) =~= out0 + more.filter(keep));
            }
        }
        if own {
            out.push(r);
        }
        i += 1;
    }
    assert(var_regs().take(10) =~= var_regs());
}

/// The registers that are known to be equal to an operand of a comparison.
pub fn collect_linked_regs(state: &State, left: Reg, right: &Operand) -> (r: Vec<Reg>)
    ensures
        r@ == linked_regs(state@, left, *right),
{
    let rc: Option<u32> = match right {
        Operand::Reg(r) => class_of(state, *r),
        Operand::Imm(_) => None,
    };
    let lc: Option<u32> = class_of(state, left);
    let same = match (rc, lc) {
        (Some(a), Some(b)) => a == b,
        (None, None) => true,
        _ => false,
    };
    let mut out: Vec<Reg> = Vec::new();
    push_class(state, rc, &mut out);
    assert(out@ =~= class_regs(state@, rc));
    if !same {
        push_class(state, lc, &mut out);
    }
    out
}

/// A history with the registers that a step found to be equal.
pub open spec fn linked_at(
    before: Seq<Breadcrumb>,
    after: Seq<Breadcrumb>,
    step: usize,
    linked: Seq<Reg>,
) -> bool {
    &&& after.len() == before.len()
    &&& forall|i: int| 0 <= i < before.len() && i != step ==> #[trigger] after[i] == before[i]
    &&& step < before.len() ==> after[step as int].linked@ == linked && after[step as int] == (
    Breadcrumb { linked: after[step as int].linked, ..before[step as int] })
}

fn set_linked_regs(history: &mut Vec<Breadcrumb>, step: usize, linked: Vec<Reg>)
    ensures
        linked_at(old(history)@, final(history)@, step, linked@),
{
    if step < history.len() {
        let mut crumb = history.remove(step);
        crumb.linked = linked;
        history.insert(step, crumb);
    }
}

/// A run and a state after it was noted on the step under way which registers are
/// known to be equal to an operand. Only classes of at least two are noted; that
/// counts as a branch decision. A replay notes nothing.
pub open spec fn links_noted(
    env: VerifierEnv,
    state: State,
    left: Reg,
    right: Operand,
    env_after: VerifierEnv,
    state_after: State,
) -> bool {
    let linked = linked_regs(state@, left, right);
    if env.current_step_idx is Some && linked.len() > 1 && !env.replay_mode {
        &&& linked_at(env.history@, env_after.history@, env.current_step_idx->0, linked)
        &&& env_after == (VerifierEnv { history: env_after.history, ..env })
        &&& state_after == (State { jmp_history_cnt: sat32(state.jmp_history_cnt + 1), ..state })
    } else {
        env_after == env && state_after == state
    }
}

/// Notes on the step under way which registers are known to be equal to an
/// operand.
pub fn note_linked_regs(env: &mut VerifierEnv, state: &mut State, left: Reg, right: &Operand)
    ensures
        links_noted(*old(env), *old(state), left, *right, *final(env), *final(state)),
{
    match env.current_step_idx {
        Some(step) => {
            let linked = collect_linked_regs(&*state, left, right);
            if linked.len() > 1 && !env.replay_mode {
                set_linked_regs(&mut env.history, step, linked);
                state.jmp_history_cnt = state.jmp_history_cnt.saturating_add(1);
            }
        },
        None => {},
    }
}

// ---------------------------------------------------------------------------
// Recording both sides
// ---------------------------------------------------------------------------

/// The code under which a side of a comparison is recorded. A bit test is
/// recorded as a comparison with zero.
pub open spec fn branch_code(op: CmpOp, taken: bool) -> u8 {
    match side_code(op, taken) {
        Some(code) => code,
        None => if taken {
            BPF_JNE
        } else {
            BPF_JEQ
        },
    }
}

/// The constant that the left operand collapses to on a side: an equality with a
/// constant holds there.
pub open spec fn collapsed(op: CmpOp, right: Operand, width: Width, taken: bool) -> Option<u64> {
    match right {
        Operand::Imm(c) => if (op == CmpOp::Eq && taken) || (op == CmpOp::Ne && !taken) {
            Some(immediate(c, width == Width::W32))
        } else {
            None
        },
        Operand::Reg(r) => None,
    }
}

/// The side of a conditional jump that is recorded.
pub open spec fn side_of(
    instr: Instr,
    pc: usize,
    pre_bounds: RegBounds,
    taken: bool,
) -> BranchSide {
    match instr {
        Instr::If { width, left, op, right, target } => BranchSide {
            width,
            left,
            op,
            code: branch_code(op, taken),
            right,
            pc,
            narrowed: collapsed(op, right, width, taken),
            pre_bounds,
        },
        _ => arbitrary(),
    }
}

/// Records one side of a conditional jump on the state that follows it.
pub fn record_side(
    state: &mut State,
    instr: &Instr,
    pc: usize,
    pre_bounds: RegBounds,
    taken: bool,
)
    requires
        *instr is If,
    ensures
        final(state)@ == recorded(old(state)@, side_of(*instr, pc, pre_bounds, taken)),
{
    match *instr {
        Instr::If { width, left, op, right, .. } => {
            let code: u8 = match code_of_side(op, taken) {
                Some(code) => code,
                None => if taken {
                    BPF_JNE
                } else {
                    BPF_JEQ
                },
            };
            let narrowed: Option<u64> = match right {
                Operand::Imm(c) => {
                    if (op == CmpOp::Eq && taken) || (op == CmpOp::Ne && !taken) {
                        Some(immediate_value(c, width == Width::W32))
                    } else {
                        None
                    }
                },
                Operand::Reg(_) => None,
            };
            record_path_cond_for_side(
                state,
                BranchSide { width, left, op, code, right, pc, narrowed, pre_bounds },
            );
        },
        _ => {},
    }
}

// ---------------------------------------------------------------------------
// Which sides are followed
// ---------------------------------------------------------------------------

/// What is known of the sides of a conditional jump.
#[derive(Clone, Copy, Debug, PartialEq, Eq, Structural)]
pub struct BranchFacts {
    /// Set while a path is replayed.
    pub replay: bool,
    /// The side that is followed, where that is known.
    pub outcome: Option<bool>,
    /// The sides whose abstraction holds no values.
    pub taken_empty: bool,
    pub passed_empty: bool,
}

/// Whether a side is followed: any on a replay, so that it can take either; the one
/// that is known to be followed; else one that holds values.
pub open spec fn follows(facts: BranchFacts, taken_side: bool) -> bool {
    facts.replay || match facts.outcome {
        Some(o) => o == taken_side,
        None => if taken_side {
            !facts.taken_empty
        } else {
            !facts.passed_empty
        },
    }
}

/// The sides that are followed: on a replay the one that the jump leads to comes
/// first, else the one behind the jump.
pub open spec fn followed(taken: State, passed: State, facts: BranchFacts) -> Seq<State> {
    let t = if follows(facts, true) {
        seq![taken]
    } else {
        Seq::empty()
    };
    let p = if follows(facts, false) {
        seq![passed]
    } else {
        Seq::empty()
    };
    if facts.replay {
        t + p
    } else {
        p + t
    }
}

/// The sides that are followed.
pub fn followed_sides(taken: State, passed: State, facts: BranchFacts) -> (r: Vec<State>)
    ensures
        r@ == followed(taken, passed, facts),
{
    let mut out: Vec<State> = Vec::new();
    if facts.replay {
        out.push(taken);
        out.push(passed);
    } else {
        match facts.outcome {
            Some(o) => {
                if o {
                    out.push(taken);
                } else {
                    out.push(passed);
                }
            },
            None => {
                if !facts.passed_empty {
                    out.push(passed);
                }
                if !facts.taken_empty {
                    out.push(taken);
                }
            },
        }
    }
    assert(out@ =~= followed(taken, passed, facts));
    out
}

/// Whether a side that is not followed is worth a proof that it cannot be
/// reached: only the zone domain rules out sides that a coarser analysis
/// explores.
pub open spec fn speculates(zone: bool, facts: BranchFacts, taken_side: bool) -> bool {
    &&& zone
    &&& !facts.replay
    &&& match facts.outcome {
        Some(o) => o != taken_side,
        None => if taken_side {
            facts.taken_empty
        } else {
            facts.passed_empty
        },
    }
}

/// Whether a side that is not followed is worth a proof.
pub fn is_worth_a_proof(zone: bool, facts: BranchFacts, taken_side: bool) -> (r: bool)
    ensures
        r == speculates(zone, facts, taken_side),
{
    zone && !facts.replay && match facts.outcome {
        Some(o) => o != taken_side,
        None => if taken_side {
            facts.taken_empty
        } else {
            facts.passed_empty
        },
    }
}

fn is_zone(state: &State) -> (r: bool)
    ensures
        r == (state.domain is Zone),
{
    match state.domain {
        NumericDomain::Zone(_) => true,
        NumericDomain::Interval(_) => false,
    }
}

/// Where a side of a conditional jump at `pc` leads.
pub open spec fn side_pc(instr: Instr, pc: usize, taken: bool) -> usize {
    if taken {
        instr->If_target
    } else {
        (pc + 1) as usize
    }
}

/// Has the engine narrow both sides of a conditional jump by its condition: its
/// operands first, then what is known of packets, exactly where the right operand
/// is a register, and at last everything that is known to be equal to the left
/// operand. Each side starts as a copy of the state before the jump.
pub fn constrain_sides<E: Engine>(engine: &E, state: &State, instr: &Instr) -> (r: (State, State))
    requires
        *instr is If,
        state.pc < usize::MAX,
    ensures
        exists|t1: &mut State, p1: &mut State, t3: &mut State, p3: &mut State|
            {
                &&& #[trigger] call_ensures(
                    E::apply_jmp_constraints,
                    (
                        engine,
                        t1,
                        p1,
                        instr->If_left,
                        instr->If_op,
                        instr->If_width,
                        &instr->If_right,
                    ),
                    (),
                )
                &&& (*t1)@ == (StateView { pc: side_pc(*instr, state.pc, true), ..state@ })
                &&& (*p1)@ == (StateView { pc: side_pc(*instr, state.pc, false), ..state@ })
                &&& match instr->If_right {
                    Operand::Imm(c) => *t3 == *final(t1) && *p3 == *final(p1),
                    Operand::Reg(right) => exists|t2: &mut State, p2: &mut State|
                        {
                            &&& #[trigger] call_ensures(
                                E::refine_packet_bounds,
                                (engine, t2, p2, instr->If_left, right, instr->If_op),
                                (),
                            )
                            &&& *t2 == *final(t1)
                            &&& *p2 == *final(p1)
                            &&& *t3 == *final(t2)
                            &&& *p3 == *final(p2)
                        },
                }
                &&& #[trigger] call_ensures(
                    E::propagate_scalar_links,
                    (engine, t3, p3, instr->If_left),
                    (),
                )
                &&& r == (*final(t3), *final(p3))
            },
{
    let mut taken = state.duplicate();
    let mut passed = state.duplicate();
    match *instr {
        Instr::If { width, left, op, right, target } => {
            taken.pc = target;
            passed.pc = state.pc + 1;
            engine.apply_jmp_constraints(&mut taken, &mut passed, left, op, width, &right);
            match right {
                Operand::Reg(r) => {
                    engine.refine_packet_bounds(&mut taken, &mut passed, left, r, op);
                },
                Operand::Imm(_) => {},
            }
            engine.propagate_scalar_links(&mut taken, &mut passed, left);
        },
        _ => {},
    }
    (taken, passed)
}

/// Has the engine narrow the types on one side of a conditional jump, and records
/// the side with the ranges before the jump.
pub fn finish_side<E: Engine>(
    engine: &E,
    side: State,
    instr: &Instr,
    state: &State,
    taken: bool,
) -> (r: State)
    requires
        *instr is If,
        state.pc < usize::MAX,
    ensures
        r.pc == side_pc(*instr, state.pc, taken),
        exists|s: &mut State|
            {
                &&& #[trigger] call_ensures(E::refine_branch, (engine, s, instr, taken), ())
                &&& *s == side
                &&& r@ == recorded(
                    StateView { pc: side_pc(*instr, state.pc, taken), ..(*final(s))@ },
                    side_of(
                        *instr,
                        state.pc,
                        state@.regs[instr->If_left.spec_index()].bounds,
                        taken,
                    ),
                )
            },
{
    let (left, target): (Reg, usize) = match *instr {
        Instr::If { left, target, .. } => (left, target),
        _ => (Reg::R0, 0),
    };
    let mut out = side;
    engine.refine_branch(&mut out, instr, taken);
    out.pc = if taken {
        target
    } else {
        state.pc + 1
    };
    let pre_bounds = state.reg(left).bounds;
    record_side(&mut out, instr, state.pc, pre_bounds, taken);
    out
}

/// Whether the engine may have made the sides of a conditional jump out of a state
/// so, and may have answered so about them. `judge` is the engine once it has
/// marked what the operands rest on.
pub open spec fn sides_of<E: Engine>(
    engine: E,
    judge: E,
    state: State,
    instr: Instr,
    taken: State,
    passed: State,
    facts: BranchFacts,
) -> bool {
    &&& exists|narrowed: (State, State)|
        {
            &&& #[trigger] call_ensures(
                constrain_sides::<E>,
                (&engine, &state, &instr),
                narrowed,
            )
            &&& call_ensures(finish_side::<E>, (&judge, narrowed.0, &instr, &state, true), taken)
            &&& call_ensures(finish_side::<E>, (&judge, narrowed.1, &instr, &state, false), passed)
        }
    &&& call_ensures(E::condition_outcome, (&engine, &state, &instr), facts.outcome)
    &&& call_ensures(E::is_inconsistent, (&judge, &taken), facts.taken_empty)
    &&& call_ensures(E::is_inconsistent, (&judge, &passed), facts.passed_empty)
    &&& taken.pc == side_pc(instr, state.pc, true)
    &&& passed.pc == side_pc(instr, state.pc, false)
}

/// Has the engine mark what the operands of a conditional jump rest on as precise,
/// where its outcome is known and the state's step is: the left operand first.
pub fn mark_operands<E: Engine>(
    engine: &mut E,
    env: &mut VerifierEnv,
    state: &State,
    instr: &Instr,
    known: bool,
)
    requires
        *instr is If,
    ensures
        differ_in_cache(*old(env), *final(env)),
        !known || state.history_idx is None ==> *final(engine) == *old(engine) && *final(env)
            == *old(env),
        known && state.history_idx is Some ==> exists|e1: &mut E, c1: &mut StateCache|
            {
                &&& #[trigger] call_ensures(
                    E::mark_chain_precision,
                    (
                        e1,
                        c1,
                        &old(env).history,
                        state.history_idx->0,
                        state.parent_cache_id,
                        instr->If_left,
                    ),
                    (),
                )
                &&& *e1 == *old(engine)
                &&& *c1 == old(env).cache
                &&& match instr->If_right {
                    Operand::Imm(c) => *final(engine) == *final(e1) && final(env).cache == *final(c1),
                    Operand::Reg(r) => exists|e2: &mut E, c2: &mut StateCache|
                        {
                            &&& #[trigger] call_ensures(
                                E::mark_chain_precision,
                                (
                                    e2,
                                    c2,
                                    &old(env).history,
                                    state.history_idx->0,
                                    state.parent_cache_id,
                                    r,
                                ),
                                (),
                            )
                            &&& *e2 == *final(e1)
                            &&& *c2 == *final(c1)
                            &&& *final(engine) == *final(e2)
                            &&& final(env).cache == *final(c2)
                        },
                }
            },
{
    if !known {
        return;
    }
    let (left, right): (Reg, Operand) = match *instr {
        Instr::If { left, right, .. } => (left, right),
        _ => {
            return;
        },
    };
    match state.history_idx {
        Some(step) => {
            let parent = state.parent_cache_id;
            engine.mark_chain_precision(&mut env.cache, &env.history, step, parent, left);
            match right {
                Operand::Reg(r) => {
                    engine.mark_chain_precision(&mut env.cache, &env.history, step, parent, r);
                },
                Operand::Imm(_) => {},
            }
        },
        None => {},
    }
}

/// Tries to prove that a side of a conditional jump cannot be reached, where that
/// is wanted.
pub fn prove_side<E: Engine>(engine: &mut E, env: &mut VerifierEnv, side: &State, wanted: bool)
    ensures
        final(env).counters == old(env).counters,
        final(env).error == old(env).error,
        !wanted ==> *final(engine) == *old(engine) && *final(env) == *old(env),
        wanted ==> exists|e: &mut E, v: &mut VerifierEnv, proved: bool|
            {
                &&& #[trigger] call_ensures(
                    try_emit_path_unreachable_entry::<E>,
                    (e, v, side),
                    proved,
                )
                &&& *e == *old(engine)
                &&& *v == *old(env)
                &&& *final(engine) == *final(e)
                &&& *final(env) == *final(v)
            },
{
    if wanted {
        let _ = try_emit_path_unreachable_entry(engine, env, side);
    }
}

/// Whether the side behind a conditional jump counts as one of the zone domain:
/// where the outcome is known, by itself, else by the side that the jump leads to.
pub open spec fn passed_in_zone(taken: State, passed: State, facts: BranchFacts) -> bool {
    if facts.outcome is Some {
        passed.domain is Zone
    } else {
        taken.domain is Zone
    }
}

/// Follows a conditional jump whose operands may be read: both sides are narrowed
/// and recorded, and those that can be followed are returned. Of the others the
/// engine tries to prove that they cannot be reached, of the one behind the jump
/// first. The run keeps its error.
pub fn follow_branch<E: Engine>(
    engine: &mut E,
    env: &mut VerifierEnv,
    state: State,
    instr: &Instr,
) -> (r: Vec<State>)
    requires
        *instr is If,
        state.pc < usize::MAX,
    ensures
        final(env).counters == old(env).counters,
        final(env).error == old(env).error,
        exists|
            s: State,
            taken: State,
            passed: State,
            facts: BranchFacts,
            e1: &mut E,
            v1: &mut VerifierEnv,
            e2: &mut E,
            v2: &mut VerifierEnv,
            e3: &mut E,
            v3: &mut VerifierEnv,
            known: bool,
            prove_passed: bool,
            prove_taken: bool,
        |
            {
                &&& links_noted(*old(env), state, instr->If_left, instr->If_right, *v1, s)
                &&& *e1 == *old(engine)
                &&& #[trigger] call_ensures(
                    mark_operands::<E>,
                    (e1, v1, &s, instr, known),
                    (),
                )
                &&& known == (facts.outcome is Some)
                &&& #[trigger] sides_of(
                    *old(engine),
                    *final(e1),
                    s,
                    *instr,
                    taken,
                    passed,
                    facts,
                )
                &&& facts.replay == old(env).replay_mode
                &&& *e2 == *final(e1)
                &&& *v2 == *final(v1)
                &&& #[trigger] call_ensures(
                    prove_side::<E>,
                    (e2, v2, &passed, prove_passed),
                    (),
                )
                &&& prove_passed == speculates(passed_in_zone(taken, passed, facts), facts, false)
                &&& *e3 == *final(e2)
                &&& *v3 == *final(v2)
                &&& #[trigger] call_ensures(
                    prove_side::<E>,
                    (e3, v3, &taken, prove_taken),
                    (),
                )
                &&& prove_taken == speculates(taken.domain is Zone, facts, true)
                &&& *final(engine) == *final(e3)
                &&& *final(env) == *final(v3)
                &&& r@ == followed(taken, passed, facts)
            },
        r@.len() <= 2,
        forall|i: int|
            0 <= i < r@.len() ==> (#[trigger] r@[i]).pc == instr->If_target || r@[i].pc == state.pc
                + 1,
{
    let (left, right): (Reg, Operand) = match *instr {
        Instr::If { left, right, .. } => (left, right),
        _ => {
            return Vec::new();
        },
    };
    let mut state = state;
    note_linked_regs(env, &mut state, left, &right);
    let ghost engine0 = *engine;
    let (taken, passed) = constrain_sides(&*engine, &state, instr);
    let outcome = engine.condition_outcome(&state, instr);
    mark_operands(engine, env, &state, instr, outcome.is_some());
    let ghost judge = *engine;
    let taken = finish_side(&*engine, taken, instr, &state, true);
    let passed = finish_side(&*engine, passed, instr, &state, false);
    let facts = BranchFacts {
        replay: env.replay_mode,
        outcome,
        taken_empty: engine.is_inconsistent(&taken),
        passed_empty: engine.is_inconsistent(&passed),
    };
    assert(sides_of(engine0, judge, state, *instr, taken, passed, facts));
    let zone = is_zone(&taken);
    let passed_zone = if outcome.is_some() {
        is_zone(&passed)
    } else {
        zone
    };
    prove_side(engine, env, &passed, is_worth_a_proof(passed_zone, facts, false));
    prove_side(engine, env, &taken, is_worth_a_proof(zone, facts, true));
    followed_sides(taken, passed, facts)
}

/// Asks the engine whether the operands of a conditional jump may be read: the
/// right one only where the left one may.
pub fn operands_readable<E: Engine>(
    engine: &mut E,
    env: &mut VerifierEnv,
    state: &mut State,
    instr: &Instr,
) -> (readable: bool)
    requires
        *instr is If,
    ensures
        exists|e1: &mut E, v1: &mut VerifierEnv, s1: &mut State, left_ok: bool|
            {
                &&& #[trigger] call_ensures(
                    E::check_readable,
                    (e1, v1, s1, &Operand::Reg(instr->If_left), true),
                    left_ok,
                )
                &&& *e1 == *old(engine)
                &&& *v1 == *old(env)
                &&& *s1 == *old(state)
                &&& if !left_ok {
                    &&& !readable
                    &&& *final(engine) == *final(e1)
                    &&& *final(env) == *final(v1)
                    &&& *final(state) == *final(s1)
                } else {
                    exists|e2: &mut E, v2: &mut VerifierEnv, s2: &mut State|
                        {
                            &&& #[trigger] call_ensures(
                                E::check_readable,
                                (e2, v2, s2, &instr->If_right, false),
                                readable,
                            )
                            &&& *e2 == *final(e1)
                            &&& *v2 == *final(v1)
                            &&& *s2 == *final(s1)
                            &&& *final(engine) == *final(e2)
                            &&& *final(env) == *final(v2)
                            &&& *final(state) == *final(s2)
                        }
                }
            },
{
    let (left, right): (Operand, Operand) = match *instr {
        Instr::If { left, right, .. } => (Operand::Reg(left), right),
        _ => {
            return false;
        },
    };
    if !engine.check_readable(env, state, &left, true) {
        return false;
    }
    engine.check_readable(env, state, &right, false)
}

/// Executes a conditional jump. Where the engine finds that an operand may not be
/// read, nothing follows. Else the jump is followed from the state in which its
/// operands were read, and the states that follow stand at the jump's target and
/// behind the jump. The counters stay as they were.
pub fn transfer_if<E: Engine>(
    engine: &mut E,
    env: &mut VerifierEnv,
    state: State,
    instr: &Instr,
) -> (r: Vec<State>)
    requires
        *instr is If,
        state.pc < usize::MAX,
    ensures
        final(env).counters == old(env).counters,
        exists|e1: &mut E, v1: &mut VerifierEnv, s1: &mut State, readable: bool|
            {
                &&& #[trigger] call_ensures(operands_readable::<E>, (e1, v1, s1, instr), readable)
                &&& *e1 == *old(engine)
                &&& *v1 == *old(env)
                &&& *s1 == state
                &&& if !readable {
                    &&& r@.len() == 0
                    &&& *final(engine) == *final(e1)
                    &&& *final(env) == (VerifierEnv { counters: old(env).counters, ..*final(v1) })
                } else {
                    exists|e2: &mut E, v2: &mut VerifierEnv, read: State|
                        {
                            &&& #[trigger] call_ensures(
                                follow_branch::<E>,
                                (e2, v2, read, instr),
                                r,
                            )
                            &&& read == (State { pc: state.pc, ..*final(s1) })
                            &&& *e2 == *final(e1)
                            &&& *v2 == (VerifierEnv {
                                counters: old(env).counters,
                                ..*final(v1)
                            })
                            &&& *final(engine) == *final(e2)
                            &&& *final(env) == *final(v2)
                        }
                }
            },
        r@.len() <= 2,
        forall|i: int|
            0 <= i < r@.len() ==> (#[trigger] r@[i]).pc == instr->If_target || r@[i].pc == state.pc
                + 1,
{
    let counters = env.counters;
    let pc: usize = state.pc;
    let mut state = state;
    let readable = operands_readable(engine, env, &mut state, instr);
    env.counters = counters;
    if !readable {
        return Vec::new();
    }
    state.pc = pc;
    follow_branch(engine, env, state, instr)
}

// ---------------------------------------------------------------------------
// Laws
// ---------------------------------------------------------------------------

/// No side is lost: outside replays and in the zone domain, a side is either
/// followed or is worth a proof that it cannot be reached, and never both. On a
/// replay both sides are followed and none is proved.
pub proof fn law_no_side_is_lost(facts: BranchFacts, taken_side: bool)
    ensures
        !facts.replay ==> (speculates(true, facts, taken_side) <==> !follows(facts, taken_side)),
        facts.replay ==> follows(facts, taken_side) && !speculates(true, facts, taken_side),
        !speculates(false, facts, taken_side),
{
}

/// A jump whose outcome is known is followed on that side alone; one whose outcome
/// is not known is given up only where neither side holds values.
pub proof fn law_known_outcomes(taken: State, passed: State, facts: BranchFacts)
    requires
        !facts.replay,
    ensures
        facts.outcome == Some(true) ==> followed(taken, passed, facts) == seq![taken],
        facts.outcome == Some(false) ==> followed(taken, passed, facts) == seq![passed],
        facts.outcome is None ==> (followed(taken, passed, facts).len() == 0 <==> facts.taken_empty
            && facts.passed_empty),
{
    assert(seq![passed] + Seq::<State>::empty() =~= seq![passed]);
    assert(Seq::<State>::empty() + seq![taken] =~= seq![taken]);
}

}
