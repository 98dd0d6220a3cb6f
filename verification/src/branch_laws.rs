//! What holds of conditional jumps: which sides are followed, in which order, and what is
//! noted of their operands.

use vstd::prelude::*;

use crate::ast::{Instr, Operand, Reg, Width};
use crate::branch::{
    class_regs, collect_linked_regs, constrain_sides, finish_side, follow_branch, followed,
    followed_sides, is_worth_a_proof, linked_regs, mark_operands, note_linked_regs, record_side,
    right_class, scalar_class, side_of, side_pc, sides_of, transfer_if, BranchFacts,
};
use crate::cache::StateCache;
use crate::emit::var_regs;
use crate::engine::Engine;
use crate::env::VerifierEnv;
use crate::machine::{State, StateView};
use crate::meaning::{
    compared_at, lemma_recorded, lemma_side, lemma_table_fits, numbers, operand_value, relation_at,
    says_side, table_ok,
};
use crate::record::recorded;
use crate::symbolic::{PathCond, RegBounds};

verus! {

// ---------------------------------------------------------------------------
// Registers that are known to be equal
// ---------------------------------------------------------------------------

/// Whether a register is known to be equal to another one that holds a number: they
/// bear the same class. The frame pointer is never counted.
pub open spec fn equal_to(v: StateView, x: Reg, operand: Reg) -> bool {
    let info = v.regs[operand.spec_index()];
    &&& !(x is R10)
    &&& info.ty is ScalarValue
    &&& info.scalar_id is Some
    &&& v.regs[x.spec_index()].scalar_id == info.scalar_id
}

/// Whether a register is known to be equal to an operand of a comparison.
pub open spec fn equal_to_operand(v: StateView, x: Reg, left: Reg, right: Operand) -> bool {
    equal_to(v, x, left) || (right matches Operand::Reg(r) && equal_to(v, x, r))
}

pub(crate) proof fn lemma_filter(s: Seq<Reg>, p: spec_fn(Reg) -> bool)
    ensures
        forall|x: Reg| #[trigger] s.filter(p).contains(x) <==> s.contains(x) && p(x),
        s.no_duplicates() ==> s.filter(p).no_duplicates(),
    decreases s.len(),
{
    reveal(Seq::filter);
    if s.len() > 0 {
        let rest = s.drop_last();
        lemma_filter(rest, p);
        let f = rest.filter(p);
        assert forall|x: Reg| #[trigger] s.filter(p).contains(x) <==> s.contains(x) && p(x) by {
            assert(f.contains(x) <==> rest.contains(x) && p(x));
            if s.filter(p).contains(x) {
                let k = choose|k: int| 0 <= k < s.filter(p).len() && s.filter(p)[k] == x;
                if k < f.len() {
                    assert(f[k] == x);
                    let m = choose|m: int| 0 <= m < rest.len() && rest[m] == x;
                    assert(s[m] == x);
                } else {
                    assert(s[s.len() - 1] == x);
                }
            }
            if s.contains(x) && p(x) {
                let m = choose|m: int| 0 <= m < s.len() && s[m] == x;
                if m < rest.len() {
                    assert(rest[m] == x);
                    let k = choose|k: int| 0 <= k < f.len() && f[k] == x;
                    assert(s.filter(p)[k] == x);
                } else {
                    assert(s.filter(p)[s.filter(p).len() - 1] == x);
                }
            }
        }
        if s.no_duplicates() {
            assert(!rest.contains(s.last()));
            assert(rest.no_duplicates());
            assert(!f.contains(s.last()));
        }
    }
}

proof fn lemma_class(v: StateView, class: Option<u32>, x: Reg)
    ensures
        class_regs(v, class).contains(x) <==> class is Some && !(x is R10)
            && v.regs[x.spec_index()].scalar_id == class,
{
    match class {
        Some(id) => {
            lemma_filter(var_regs(), |r: Reg| v.regs[r.spec_index()].scalar_id == Some(id));
            assert(var_regs().contains(x) <==> !(x is R10)) by {
                let all = var_regs();
                if !(x is R10) {
                    assert(all[x.spec_index()] == x);
                }
            }
        },
        None => {},
    }
}

/// The registers that a comparison links are those that are known to be equal to one of
/// its operands.
pub proof fn law_linked_registers_equal_an_operand(
    state: State,
    left: Reg,
    right: Operand,
    r: Vec<Reg>,
    x: Reg,
)
    requires
        call_ensures(collect_linked_regs, (&state, left, &right), r),
    ensures
        r@.contains(x) <==> equal_to_operand(state@, x, left, right),
{
    lemma_linked(state@, left, right, x);
}

proof fn lemma_linked(v: StateView, left: Reg, right: Operand, x: Reg)
    ensures
        linked_regs(v, left, right).contains(x) <==> equal_to_operand(v, x, left, right),
{
    let rc = right_class(v, right);
    let lc = scalar_class(v, left);
    lemma_class(v, rc, x);
    lemma_class(v, lc, x);
    let a = class_regs(v, rc);
    let b = class_regs(v, lc);
    assert((a + b).contains(x) <==> a.contains(x) || b.contains(x)) by {
        if a.contains(x) {
            let k = choose|k: int| 0 <= k < a.len() && a[k] == x;
            assert((a + b)[k] == x);
        }
        if b.contains(x) {
            let k = choose|k: int| 0 <= k < b.len() && b[k] == x;
            assert((a + b)[a.len() + k] == x);
        }
    }
}

/// Links are noted on the step under way: outside replays, where a register other than
/// the operands' own is linked, the step keeps the linked registers and the comparison
/// counts as a branch decision. Else, and in every other step, nothing changes.
pub proof fn law_links_are_noted(
    env: &mut VerifierEnv,
    state: &mut State,
    left: Reg,
    right: Operand,
    x: Reg,
    y: Reg,
)
    requires
        call_ensures(note_linked_regs, (env, state, left, &right), ()),
        state.jmp_history_cnt < u32::MAX,
    ensures
        old(env).replay_mode || old(env).current_step_idx is None ==> *final(env) == *old(env)
            && *final(state) == *old(state),
        ({
            let step = old(env).current_step_idx->0 as int;
            &&& !old(env).replay_mode && old(env).current_step_idx is Some && step
                < old(env).history@.len() && x != y && equal_to_operand(old(state)@, x, left, right)
                && equal_to_operand(old(state)@, y, left, right) ==> {
                &&& forall|z: Reg| #[trigger]
                    final(env).history@[step].linked@.contains(z) <==> equal_to_operand(
                        old(state)@,
                        z,
                        left,
                        right,
                    )
                &&& final(env).history@[step].pc == old(env).history@[step].pc
                &&& final(state).jmp_history_cnt == old(state).jmp_history_cnt + 1
            }
        }),
        final(env).history@.len() == old(env).history@.len(),
        forall|i: int|
            #![trigger final(env).history@[i]]
            0 <= i < old(env).history@.len() && old(env).current_step_idx != Some(i as usize)
                ==> final(env).history@[i] == old(env).history@[i],
{
    let v = (*state)@;
    let linked = linked_regs(v, left, right);
    lemma_linked(v, left, right, x);
    lemma_linked(v, left, right, y);
    assert forall|z: Reg| #[trigger] linked.contains(z) <==> equal_to_operand(
        v,
        z,
        left,
        right,
    ) by {
        lemma_linked(v, left, right, z);
    }
    if x != y && linked.contains(x) && linked.contains(y) {
        let i = choose|i: int| 0 <= i < linked.len() && linked[i] == x;
        let j = choose|j: int| 0 <= j < linked.len() && linked[j] == y;
        assert(i != j);
        assert(linked.len() > 1);
    }
}

// ---------------------------------------------------------------------------
// Sides
// ---------------------------------------------------------------------------

/// Which sides are followed: on a replay both, the one that the jump leads to first. Else
/// the one of a known outcome alone; and where the outcome is not known those that hold
/// values, the one behind the jump first.
pub proof fn law_followed_sides(taken: State, passed: State, facts: BranchFacts, r: Vec<State>)
    requires
        call_ensures(followed_sides, (taken, passed, facts), r),
    ensures
        facts.replay ==> r@.len() == 2 && r@[0] == taken && r@[1] == passed,
        !facts.replay && facts.outcome == Some(true) ==> r@.len() == 1 && r@[0] == taken,
        !facts.replay && facts.outcome == Some(false) ==> r@.len() == 1 && r@[0] == passed,
        !facts.replay && facts.outcome is None ==> {
            &&& !facts.taken_empty && !facts.passed_empty ==> r@.len() == 2 && r@[0] == passed
                && r@[1] == taken
            &&& facts.taken_empty && !facts.passed_empty ==> r@.len() == 1 && r@[0] == passed
            &&& !facts.taken_empty && facts.passed_empty ==> r@.len() == 1 && r@[0] == taken
            &&& facts.taken_empty && facts.passed_empty ==> r@.len() == 0
        },
{
}

/// A side is worth a proof only where it is given up: in the zone domain, outside
/// replays, where the outcome is known to be the other one or, for want of one, the side
/// holds no values.
pub proof fn law_only_given_up_sides_are_proved(
    zone: bool,
    facts: BranchFacts,
    taken_side: bool,
    r: bool,
)
    requires
        call_ensures(is_worth_a_proof, (zone, facts, taken_side), r),
    ensures
        r ==> zone && !facts.replay,
        zone && !facts.replay && facts.outcome is Some ==> (r <==> facts.outcome != Some(
            taken_side,
        )),
        zone && !facts.replay && facts.outcome is None && taken_side ==> r == facts.taken_empty,
        zone && !facts.replay && facts.outcome is None && !taken_side ==> r == facts.passed_empty,
{
}

/// A side starts where it leads: the engine narrows a copy of the state at the jump's
/// target as the taken side and one behind the jump as the other, by the jump's own
/// operands and relation.
pub proof fn law_sides_start_where_they_lead<E: Engine>(
    engine: E,
    state: State,
    instr: Instr,
    r: (State, State),
)
    requires
        instr is If,
        state.pc < usize::MAX,
        call_ensures(constrain_sides::<E>, (&engine, &state, &instr), r),
    ensures
        exists|t: &mut State, p: &mut State|
            {
                &&& #[trigger] call_ensures(
                    E::apply_jmp_constraints,
                    (
                        &engine,
                        t,
                        p,
                        instr->If_left,
                        instr->If_op,
                        instr->If_width,
                        &instr->If_right,
                    ),
                    (),
                )
                &&& t.pc == instr->If_target && p.pc == state.pc + 1
                &&& (*t)@.regs == state@.regs && (*p)@.regs == state@.regs
                &&& (*t)@.bcf == state@.bcf && (*p)@.bcf == state@.bcf
            },
        exists|t: &mut State, p: &mut State|
            {
                &&& #[trigger] call_ensures(
                    E::propagate_scalar_links,
                    (&engine, t, p, instr->If_left),
                    (),
                )
                &&& r == (*final(t), *final(p))
            },
{
    let (t1, p1, t3, p3) = choose|t1: &mut State, p1: &mut State, t3: &mut State, p3: &mut State|
        {
            &&& #[trigger] call_ensures(
                E::apply_jmp_constraints,
                (
                    &engine,
                    t1,
                    p1,
                    instr->If_left,
                    instr->If_op,
                    instr->If_width,
                    &instr->If_right,
                ),
                (),
            )
            &&& (*t1)@ == (StateView {
                pc: side_pc(instr, state.pc, true),
                ..state@
            })
            &&& (*p1)@ == (StateView {
                pc: side_pc(instr, state.pc, false),
                ..state@
            })
            &&& #[trigger] call_ensures(
                E::propagate_scalar_links,
                (&engine, t3, p3, instr->If_left),
                (),
            )
            &&& r == (*final(t3), *final(p3))
        };
    assert((*t1)@.pc == (*t1).pc && (*p1)@.pc == (*p1).pc);
}

/// A side stands where it leads and says what it means: at the jump's target or behind
/// the jump, with the engine's narrowing of the types there. Where the operands are
/// numbers, the condition that it records holds exactly where the jump goes to this side.
pub proof fn law_finished_sides_say_where_they_lead<E: Engine>(
    engine: E,
    side: State,
    instr: Instr,
    state: State,
    taken: bool,
    r: State,
)
    requires
        instr is If,
        state.pc < usize::MAX,
        call_ensures(finish_side::<E>, (&engine, side, &instr, &state, taken), r),
    ensures
        taken ==> r.pc == instr->If_target,
        !taken ==> r.pc == state.pc + 1,
        exists|s: &mut State|
            {
                &&& #[trigger] call_ensures(E::refine_branch, (&engine, s, &instr, taken), ())
                &&& *s == side
                &&& r@.regs == (*final(s))@.regs
                &&& numbers((*final(s))@, instr->If_left, instr->If_right) && table_ok(
                    (*final(s))@.bcf->0,
                ) ==> says_side(
                    StateView { pc: r.pc, ..(*final(s))@ },
                    r@,
                    instr,
                    taken,
                )
            },
{
    let s = choose|s: &mut State|
        {
            &&& #[trigger] call_ensures(E::refine_branch, (&engine, s, &instr, taken), ())
            &&& *s == side
            &&& r@ == recorded(
                StateView {
                    pc: side_pc(instr, state.pc, taken),
                    ..(*final(s))@
                },
                side_of(
                    instr,
                    state.pc,
                    state@.regs[instr->If_left.spec_index()].bounds,
                    taken,
                ),
            )
        };
    let v = StateView { pc: side_pc(instr, state.pc, taken), ..(*final(s))@ };
    let side1 = side_of(
        instr,
        state.pc,
        state@.regs[instr->If_left.spec_index()].bounds,
        taken,
    );
    let w = (*final(s))@;
    if numbers(w, instr->If_left, instr->If_right) && table_ok(w.bcf->0) {
        lemma_table_fits(*final(s));
        lemma_table_fits(r);
        lemma_recorded(v, side1);
        lemma_side(side1, instr, taken);
        let f = |regs: Seq<u64>| compared_at(side1, regs);
        let g = |regs: Seq<u64>|
            relation_at(
                instr->If_width,
                instr->If_op,
                regs[instr->If_left.spec_index()],
                operand_value(instr->If_right, regs),
            ) == taken;
        assert(f =~= g);
    }
}

/// The value of a constant at a width: its low half for a narrow comparison.
pub open spec fn constant_at(c: i64, width: Width) -> u64 {
    match width {
        Width::W32 => (c as u32) as u64,
        _ => c as u64,
    }
}

/// A recorded side remembers its jump: where it stands, which register is compared, at
/// which width, and in which range it lies before the jump and on this side. On the side
/// on which the register equals a constant it remembers that constant, and on no other.
pub proof fn law_recorded_sides_remember_their_jump(
    state: &mut State,
    instr: Instr,
    pc: usize,
    pre_bounds: RegBounds,
    taken: bool,
)
    requires
        instr is If,
        call_ensures(record_side, (state, &instr, pc, pre_bounds, taken), ()),
        numbers((*state)@, instr->If_left, instr->If_right),
        table_ok((*state)@.bcf->0),
    ensures
        final(state)@.bcf is Some,
        final(state)@.bcf->0.conds.last() matches PathCond::Branch { pred, pc: at, narrowed, lhs }
            && {
            let left = instr->If_left.spec_index();
            &&& at == pc
            &&& lhs.reg == left
            &&& lhs.jmp32 <==> instr->If_width is W32
            &&& lhs.bounds == old(state)@.regs[left].bounds
            &&& lhs.pre_bounds == pre_bounds
            &&& lhs.materialized_at == match old(state)@.bcf->0.bindings[left] {
                Some(b) => Some(b.pc),
                None => None,
            }
            &&& match instr->If_right {
                Operand::Imm(c) => if taken && instr->If_op is Eq || !taken && instr->If_op is Ne {
                    narrowed matches Some(n) && n.value == constant_at(c, instr->If_width)
                        && n.jmp32 == lhs.jmp32 && n.materialized_at == lhs.materialized_at
                } else {
                    narrowed is None
                },
                Operand::Reg(r) => narrowed is None,
            }
        },
{
    lemma_table_fits(*state);
    lemma_table_fits(*final(state));
    lemma_recorded((*state)@, side_of(instr, pc, pre_bounds, taken));
}

/// A condition on a register that was not read before remembers where it was first read
/// and in which range it lies.
pub proof fn law_first_reads_are_remembered(
    state: &mut State,
    instr: Instr,
    pc: usize,
    pre_bounds: RegBounds,
    taken: bool,
)
    requires
        instr is If,
        call_ensures(record_side, (state, &instr, pc, pre_bounds, taken), ()),
        numbers((*state)@, instr->If_left, instr->If_right),
        table_ok((*state)@.bcf->0),
        (*state)@.bcf->0.bindings[instr->If_left.spec_index()] is None,
    ensures
        ({
            let left = instr->If_left.spec_index();
            let n = old(state)@.bcf->0.conds.len() as int;
            let after = final(state)@.bcf->0;
            &&& after.bindings[left] matches Some(b) && b.pc == pc
            &&& after.conds[n] matches PathCond::Range { expr, bounds, pc: at } && {
                &&& at == pc
                &&& bounds == old(state)@.regs[left].bounds
                &&& expr == after.bindings[left]->0.expr
            }
        }),
{
    lemma_table_fits(*state);
    lemma_table_fits(*final(state));
    lemma_recorded((*state)@, side_of(instr, pc, pre_bounds, taken));
}

// ---------------------------------------------------------------------------
// The jump as a whole
// ---------------------------------------------------------------------------

/// A jump whose operands may not be read leads nowhere: where the engine never finds an
/// operand readable, nothing follows.
pub proof fn law_unreadable_jumps_lead_nowhere<E: Engine>(
    engine: &mut E,
    env: &mut VerifierEnv,
    state: State,
    instr: Instr,
    r: Vec<State>,
    operand: Operand,
    is_left: bool,
)
    requires
        instr is If,
        state.pc < usize::MAX,
        call_ensures(transfer_if::<E>, (engine, env, state, &instr), r),
        is_left ==> operand == Operand::Reg(instr->If_left),
        !is_left ==> operand == instr->If_right,
        forall|e: &mut E, v: &mut VerifierEnv, s: &mut State, ok: bool| #[trigger]
            call_ensures(E::check_readable, (e, v, s, &operand, is_left), ok) ==> !ok,
    ensures
        r@.len() == 0,
{
}

/// Outside replays a jump whose outcome the engine always knows leads to that side
/// alone: to its target where it is taken, and behind the jump where it is not.
pub proof fn law_known_jumps_go_one_way<E: Engine>(
    engine: &mut E,
    env: &mut VerifierEnv,
    state: State,
    instr: Instr,
    r: Vec<State>,
    taken: bool,
)
    requires
        instr is If,
        state.pc < usize::MAX,
        call_ensures(follow_branch::<E>, (engine, env, state, &instr), r),
        !env.replay_mode,
        forall|s: State, o: Option<bool>| #[trigger]
            call_ensures(E::condition_outcome, (&*engine, &s, &instr), o) ==> o == Some(taken),
    ensures
        r@.len() == 1,
        taken ==> r@[0].pc == instr->If_target,
        !taken ==> r@[0].pc == state.pc + 1,
{
    let (s, t, p, facts, judge) = choose|s: State, t: State, p: State, facts: BranchFacts, judge: E|
        {
            &&& #[trigger] sides_of(*engine, judge, s, instr, t, p, facts)
            &&& s.pc == state.pc
            &&& facts.replay == env.replay_mode
            &&& r@ == followed(t, p, facts)
        };
    assert(facts.outcome == Some(taken));
}

/// Outside replays a jump whose outcome is never known, and whose sides the engine
/// always finds to hold values, goes both ways: behind the jump first, then to its
/// target. Nothing is proved of either side.
pub proof fn law_open_jumps_go_both_ways<E: Engine>(
    engine: &mut E,
    env: &mut VerifierEnv,
    state: State,
    instr: Instr,
    r: Vec<State>,
)
    requires
        instr is If,
        state.pc < usize::MAX,
        call_ensures(follow_branch::<E>, (engine, env, state, &instr), r),
        !env.replay_mode,
        forall|s: State, o: Option<bool>| #[trigger]
            call_ensures(E::condition_outcome, (&*engine, &s, &instr), o) ==> o is None,
        forall|e: E, s: State, empty: bool| #[trigger]
            call_ensures(E::is_inconsistent, (&e, &s), empty) ==> !empty,
    ensures
        r@.len() == 2,
        r@[0].pc == state.pc + 1,
        r@[1].pc == instr->If_target,
{
    let (s, t, p, facts, judge) = choose|s: State, t: State, p: State, facts: BranchFacts, judge: E|
        {
            &&& #[trigger] sides_of(*engine, judge, s, instr, t, p, facts)
            &&& s.pc == state.pc
            &&& facts.replay == env.replay_mode
            &&& r@ == followed(t, p, facts)
        };
    assert(facts.outcome is None && !facts.taken_empty && !facts.passed_empty);
}

/// A replay follows both sides, the one that the jump leads to first.
pub proof fn law_replayed_jumps_go_both_ways<E: Engine>(
    engine: &mut E,
    env: &mut VerifierEnv,
    state: State,
    instr: Instr,
    r: Vec<State>,
)
    requires
        instr is If,
        state.pc < usize::MAX,
        call_ensures(follow_branch::<E>, (engine, env, state, &instr), r),
        env.replay_mode,
    ensures
        r@.len() == 2,
        r@[0].pc == instr->If_target,
        r@[1].pc == state.pc + 1,
{
    let (s, t, p, facts, judge) = choose|s: State, t: State, p: State, facts: BranchFacts, judge: E|
        {
            &&& #[trigger] sides_of(*engine, judge, s, instr, t, p, facts)
            &&& s.pc == state.pc
            &&& facts.replay == env.replay_mode
            &&& r@ == followed(t, p, facts)
        };
}

/// What a decided jump rests on is marked: where the outcome is known and the state's
/// step is, the engine marks the left operand and, where it is a register, the right
/// one, from that step on. Else nothing is marked.
pub proof fn law_decided_jumps_mark_their_operands<E: Engine>(
    engine: &mut E,
    env: &mut VerifierEnv,
    state: State,
    instr: Instr,
    known: bool,
)
    requires
        instr is If,
        call_ensures(mark_operands::<E>, (engine, env, &state, &instr, known), ()),
    ensures
        !known || state.history_idx is None ==> *final(engine) == *old(engine) && *final(env)
            == *old(env),
        known && state.history_idx is Some ==> {
            &&& exists|e: &mut E, c: &mut StateCache| #[trigger]
                call_ensures(
                    E::mark_chain_precision,
                    (
                        e,
                        c,
                        &old(env).history,
                        state.history_idx->0,
                        state.parent_cache_id,
                        instr->If_left,
                    ),
                    (),
                )
            &&& instr->If_right matches Operand::Reg(right) ==> exists|
                e: &mut E,
                c: &mut StateCache,
            | #[trigger]
                call_ensures(
                    E::mark_chain_precision,
                    (
                        e,
                        c,
                        &old(env).history,
                        state.history_idx->0,
                        state.parent_cache_id,
                        right,
                    ),
                    (),
                ) && final(env).cache == *final(c)
        },
{
}

}
