//! What the terms and conditions of a symbolic table mean, and that the conditions
//! which branches leave mean what the branches do.

use vstd::prelude::*;

use crate::ast::{CmpOp, Instr, Operand, Reg, Width};
use crate::branch::{branch_code, record_side, side_of};
use crate::machine::{RegType, StackSlot, State, StateView};
use crate::record::{immediate, record_path_cond_for_side, recorded, recorded_table, BranchSide};
use crate::symbolic::{BcfTerm, PathCond, RegBounds, SymbolicView};

verus! {

// ---------------------------------------------------------------------------
// Jumps
// ---------------------------------------------------------------------------

/// Whether a relation holds between two words at a width: at the smaller one only
/// their low halves are compared.
pub open spec fn relation_at(width: Width, op: CmpOp, l: u64, r: u64) -> bool {
    match width {
        Width::W64 => match op {
            CmpOp::Eq => l == r,
            CmpOp::Ne => l != r,
            CmpOp::UGt => l > r,
            CmpOp::UGe => l >= r,
            CmpOp::ULt => l < r,
            CmpOp::ULe => l <= r,
            CmpOp::SGt => l as i64 > r as i64,
            CmpOp::SGe => l as i64 >= r as i64,
            CmpOp::SLt => (l as i64) < r as i64,
            CmpOp::SLe => l as i64 <= r as i64,
            CmpOp::Test => l & r != 0,
        },
        Width::W32 => match op {
            CmpOp::Eq => l as u32 == r as u32,
            CmpOp::Ne => l as u32 != r as u32,
            CmpOp::UGt => l as u32 > r as u32,
            CmpOp::UGe => l as u32 >= r as u32,
            CmpOp::ULt => (l as u32) < r as u32,
            CmpOp::ULe => l as u32 <= r as u32,
            CmpOp::SGt => (l as u32) as i32 > (r as u32) as i32,
            CmpOp::SGe => (l as u32) as i32 >= (r as u32) as i32,
            CmpOp::SLt => ((l as u32) as i32) < (r as u32) as i32,
            CmpOp::SLe => (l as u32) as i32 <= (r as u32) as i32,
            CmpOp::Test => (l as u32) & (r as u32) != 0,
        },
    }
}

/// Whether a comparison with a jump code of the machine holds.
pub open spec fn code_at(code: u8, jmp32: bool, l: u64, r: u64) -> bool {
    let width = if jmp32 {
        Width::W32
    } else {
        Width::W64
    };
    if code == 0x10 {
        relation_at(width, CmpOp::Eq, l, r)
    } else if code == 0x20 {
        relation_at(width, CmpOp::UGt, l, r)
    } else if code == 0x30 {
        relation_at(width, CmpOp::UGe, l, r)
    } else if code == 0x50 {
        relation_at(width, CmpOp::Ne, l, r)
    } else if code == 0x60 {
        relation_at(width, CmpOp::SGt, l, r)
    } else if code == 0x70 {
        relation_at(width, CmpOp::SGe, l, r)
    } else if code == 0xa0 {
        relation_at(width, CmpOp::ULt, l, r)
    } else if code == 0xb0 {
        relation_at(width, CmpOp::ULe, l, r)
    } else if code == 0xc0 {
        relation_at(width, CmpOp::SLt, l, r)
    } else if code == 0xd0 {
        relation_at(width, CmpOp::SLe, l, r)
    } else {
        false
    }
}

/// The value of the right operand of a comparison. An immediate is extended by its
/// sign.
pub open spec fn operand_value(right: Operand, regs: Seq<u64>) -> u64 {
    match right {
        Operand::Imm(c) => c as u64,
        Operand::Reg(r) => regs[r.spec_index()],
    }
}

/// Where a conditional jump at `pc` leads, executed on the given registers.
pub open spec fn jump_leads(instr: Instr, pc: usize, regs: Seq<u64>) -> int {
    if relation_at(
        instr->If_width,
        instr->If_op,
        regs[instr->If_left.spec_index()],
        operand_value(instr->If_right, regs),
    ) {
        instr->If_target as int
    } else {
        pc + 1
    }
}

// ---------------------------------------------------------------------------
// Terms and conditions
// ---------------------------------------------------------------------------

/// The value of a term where each variable has the value that `vars` gives it.
pub open spec fn term_value(terms: Seq<BcfTerm>, vars: spec_fn(int) -> u64, t: int) -> u64
    decreases t,
{
    if t < 0 || t >= terms.len() {
        0
    } else {
        match terms[t] {
            BcfTerm::RegVar { reg } => vars(t),
            BcfTerm::Val { value, jmp32 } => value,
            BcfTerm::Alu { op, left, right, bits } => if left < t && right < t && op == 0x50 {
                let l = term_value(terms, vars, left as int);
                let r = term_value(terms, vars, right as int);
                if bits == 32 {
                    ((l as u32) & (r as u32)) as u64
                } else {
                    l & r
                }
            } else {
                0
            },
            BcfTerm::Pred { op, left, right, jmp32 } => 0,
        }
    }
}

/// Whether a comparison among the terms holds.
pub open spec fn pred_holds(terms: Seq<BcfTerm>, vars: spec_fn(int) -> u64, t: int) -> bool {
    0 <= t < terms.len() && (terms[t] matches BcfTerm::Pred { op, left, right, jmp32 } && left < t
        && right < t && code_at(
        op,
        jmp32,
        term_value(terms, vars, left as int),
        term_value(terms, vars, right as int),
    ))
}

/// Whether a number lies in a range.
pub open spec fn within(b: RegBounds, x: u64) -> bool {
    &&& b.const_val matches Some(c) ==> x == c
    &&& b.umin <= x <= b.umax
    &&& b.smin <= x as i64 <= b.smax
}

/// Whether a condition of a table holds.
pub open spec fn cond_holds(
    terms: Seq<BcfTerm>,
    vars: spec_fn(int) -> u64,
    cond: PathCond,
) -> bool {
    match cond {
        PathCond::Range { expr, bounds, pc } => within(
            bounds,
            term_value(terms, vars, expr as int),
        ),
        PathCond::Branch { pred, pc, narrowed, lhs } => pred_holds(terms, vars, pred as int),
    }
}

/// Whether every register that is bound is bound to a term of the table.
pub open spec fn table_ok(b: SymbolicView) -> bool {
    b.bindings.len() == 10 && forall|i: int|
        0 <= i < 10 ==> ((#[trigger] b.bindings[i]) matches Some(x) ==> x.expr < b.terms.len())
}

/// Whether the terms that registers are bound to have the registers' values.
pub open spec fn reads(b: SymbolicView, vars: spec_fn(int) -> u64, regs: Seq<u64>) -> bool {
    forall|i: int|
        0 <= i < 10 ==> ((#[trigger] b.bindings[i]) matches Some(x) ==> term_value(
            b.terms,
            vars,
            x.expr as int,
        ) == regs[i])
}

/// Whether the variables from a term on have the values of the registers that they
/// stand for.
pub open spec fn fresh_read(
    terms: Seq<BcfTerm>,
    from: int,
    vars: spec_fn(int) -> u64,
    regs: Seq<u64>,
) -> bool {
    forall|t: int|
        from <= t < terms.len() ==> ((#[trigger] terms[t]) matches BcfTerm::RegVar { reg } ==> vars(
            t,
        ) == regs[reg as int])
}

/// Whether the operands of a comparison are numbers.
pub open spec fn number_operands(v: StateView, left: Reg, right: Operand) -> bool {
    &&& left != Reg::R10
    &&& v.regs[left.spec_index()].ty == RegType::ScalarValue
    &&& right matches Operand::Reg(r) ==> r != Reg::R10 && v.regs[r.spec_index()].ty
        == RegType::ScalarValue
}

/// Whether a state has a symbolic table, and the operands of a comparison are
/// numbers in it.
pub open spec fn numbers(v: StateView, left: Reg, right: Operand) -> bool {
    v.bcf is Some && number_operands(v, left, right)
}

/// Whether a state has an empty symbolic table.
pub open spec fn blank_table(v: StateView) -> bool {
    v.bcf matches Some(b) && b.terms.len() == 0 && b.conds.len() == 0 && b.bindings.len() == 10
        && forall|i: int| 0 <= i < 10 ==> (#[trigger] b.bindings[i]) is None
}

/// Whether a register has no term yet.
pub open spec fn unread(b: SymbolicView, r: Reg) -> bool {
    b.bindings[r.spec_index()] is None
}

/// Whether the ranges of those operands that had no term hold.
pub open spec fn new_ranges(v: StateView, left: Reg, right: Operand, regs: Seq<u64>) -> bool {
    &&& unread(v.bcf->0, left) ==> within(
        v.regs[left.spec_index()].bounds,
        regs[left.spec_index()],
    )
    &&& right matches Operand::Reg(r) ==> unread(v.bcf->0, r) ==> within(
        v.regs[r.spec_index()].bounds,
        regs[r.spec_index()],
    )
}

/// Whether the conditions that `after` has more than `before` say of the registers
/// just this: the operands that had no term lie in their ranges, and `said` holds;
/// the latter is the last condition, the others are ranges. All that was there
/// before stays, and all terms still have the registers' values.
pub open spec fn says(
    before: StateView,
    after: StateView,
    left: Reg,
    right: Operand,
    said: spec_fn(Seq<u64>) -> bool,
) -> bool {
    let b = before.bcf->0;
    let a = after.bcf->0;
    &&& after.bcf is Some
    &&& table_ok(a)
    &&& !unread(a, left)
    &&& right matches Operand::Reg(r) ==> !unread(a, r)
    &&& b.terms.is_prefix_of(a.terms)
    &&& b.conds.is_prefix_of(a.conds)
    &&& a.conds.len() > b.conds.len()
    &&& a.conds.last() is Branch
    &&& forall|i: int|
        b.conds.len() <= i < a.conds.len() - 1 ==> (#[trigger] a.conds[i]) is Range
    &&& forall|vars: spec_fn(int) -> u64, regs: Seq<u64>|
        #![trigger reads(b, vars, regs)]
        #![trigger reads(a, vars, regs)]
        reads(b, vars, regs) && fresh_read(a.terms, b.terms.len() as int, vars, regs) ==> {
            &&& reads(a, vars, regs)
            &&& cond_holds(a.terms, vars, a.conds.last()) <==> said(regs)
            &&& (forall|i: int|
                b.conds.len() <= i < a.conds.len() - 1 ==> cond_holds(
                    a.terms,
                    vars,
                    #[trigger] a.conds[i],
                )) <==> new_ranges(before, left, right, regs)
        }
}

// ---------------------------------------------------------------------------
// What is recorded
// ---------------------------------------------------------------------------

proof fn lemma_value_stays(
    few: Seq<BcfTerm>,
    many: Seq<BcfTerm>,
    vars: spec_fn(int) -> u64,
    t: int,
)
    requires
        few.len() <= many.len(),
        forall|i: int| 0 <= i < few.len() ==> #[trigger] many[i] == few[i],
        0 <= t < few.len(),
    ensures
        term_value(many, vars, t) == term_value(few, vars, t),
    decreases t,
{
    assert(many[t] == few[t]);
    match few[t] {
        BcfTerm::Alu { op, left, right, bits } => {
            if left < t && right < t {
                lemma_value_stays(few, many, vars, left as int);
                lemma_value_stays(few, many, vars, right as int);
            }
        },
        _ => {},
    }
}

proof fn lemma_low_half(x: u32)
    ensures
        (x as u64) as u32 == x,
{
    assert((x as u64) as u32 == x) by (bit_vector);
}

proof fn lemma_immediate_half(c: i64)
    ensures
        ((c as u32) as u64) as u32 == (c as u64) as u32,
{
    assert(((c as u32) as u64) as u32 == (c as u64) as u32) by (bit_vector);
}

/// What is compared: the operands, or of a bit test the bits that both have, with
/// zero.
pub open spec fn compared_at(s: BranchSide, regs: Seq<u64>) -> bool {
    let l = regs[s.left.spec_index()];
    let r = operand_value(s.right, regs);
    let jmp32 = s.width == Width::W32;
    if s.op != CmpOp::Test {
        code_at(s.code, jmp32, l, r)
    } else if jmp32 {
        code_at(s.code, jmp32, ((l as u32) & (r as u32)) as u64, 0)
    } else {
        code_at(s.code, jmp32, l & r, 0)
    }
}

pub(crate) proof fn lemma_recorded(v: StateView, s: BranchSide)
    requires
        v.regs.len() == 11,
        numbers(v, s.left, s.right),
        table_ok(v.bcf->0),
        recorded(v, s).bcf matches Some(t) ==> t.terms.len() <= usize::MAX,
    ensures
        says(v, recorded(v, s), s.left, s.right, |regs: Seq<u64>| compared_at(s, regs)),
        recorded(v, s).regs == v.regs,
{
    let b = v.bcf->0;
    let a = recorded_table(b, v, s);
    let l = s.left.spec_index();
    let jmp32 = s.width == Width::W32;
    let said = |regs: Seq<u64>| compared_at(s, regs);
    assert(recorded(v, s).bcf == Some(a));
    assert forall|i: int| 0 <= i < b.terms.len() implies #[trigger] a.terms[i] == b.terms[i] by {}
    assert(b.terms =~= a.terms.subrange(0, b.terms.len() as int));
    assert(b.conds =~= a.conds.subrange(0, b.conds.len() as int));
    assert forall|vars: spec_fn(int) -> u64, regs: Seq<u64>|
        #![trigger reads(b, vars, regs)]
        #![trigger reads(a, vars, regs)]
        reads(b, vars, regs) && fresh_read(a.terms, b.terms.len() as int, vars, regs) implies {
        &&& reads(a, vars, regs)
        &&& cond_holds(a.terms, vars, a.conds.last()) <==> said(regs)
        &&& (forall|i: int|
            b.conds.len() <= i < a.conds.len() - 1 ==> cond_holds(
                a.terms,
                vars,
                #[trigger] a.conds[i],
            )) <==> new_ranges(v, s.left, s.right, regs)
    } by {
        assert forall|i: int| 0 <= i < 10 implies ((#[trigger] a.bindings[i]) matches Some(x)
            ==> term_value(a.terms, vars, x.expr as int) == regs[i]) by {
            if b.bindings[i] is Some {
                let x = b.bindings[i]->0;
                lemma_value_stays(b.terms, a.terms, vars, x.expr as int);
            } else if a.bindings[i] is Some {
                let x = a.bindings[i]->0;
                assert(a.terms[x.expr as int] == (BcfTerm::RegVar { reg: i as usize }));
            }
        }
        lemma_last_holds(v, s, vars, regs);
        lemma_ranges_hold(v, s, vars, regs);
    }
}

proof fn lemma_last_holds(v: StateView, s: BranchSide, vars: spec_fn(int) -> u64, regs: Seq<u64>)
    requires
        v.regs.len() == 11,
        numbers(v, s.left, s.right),
        table_ok(v.bcf->0),
        recorded_table(v.bcf->0, v, s).terms.len() <= usize::MAX,
        reads(recorded_table(v.bcf->0, v, s), vars, regs),
    ensures
        cond_holds(
            recorded_table(v.bcf->0, v, s).terms,
            vars,
            recorded_table(v.bcf->0, v, s).conds.last(),
        ) <==> compared_at(s, regs),
{
    let b = v.bcf->0;
    let a = recorded_table(b, v, s);
    let l = s.left.spec_index();
    let jmp32 = s.width == Width::W32;
    let n = a.terms.len() - 1;
    assert(a.bindings[l] is Some);
    let left = a.bindings[l]->0.expr as int;
    assert(term_value(a.terms, vars, left) == regs[l]);
    match s.right {
        Operand::Reg(r) => {
            let k = r.spec_index();
            assert(a.bindings[k] is Some);
            assert(term_value(a.terms, vars, a.bindings[k]->0.expr as int) == regs[k]);
        },
        Operand::Imm(c) => {
            lemma_immediate_half(c);
        },
    }
    let rv = operand_value(s.right, regs);
    lemma_low_half((regs[l] as u32) & (rv as u32));
    if s.op == CmpOp::Test {
        assert(a.terms[n - 2] is Alu);
        assert(a.terms[n - 1] == (BcfTerm::Val { value: 0, jmp32 }));
        match s.right {
            Operand::Reg(r) => {
                assert(a.terms[n - 2] == (BcfTerm::Alu {
                    op: 0x50,
                    left: left as usize,
                    right: a.bindings[r.spec_index()]->0.expr,
                    bits: if jmp32 {
                        32
                    } else {
                        64
                    },
                }));
            },
            Operand::Imm(c) => {
                assert(a.terms[n - 3] is Val);
                assert(a.terms[n - 2] == (BcfTerm::Alu {
                    op: 0x50,
                    left: left as usize,
                    right: (n - 3) as usize,
                    bits: if jmp32 {
                        32
                    } else {
                        64
                    },
                }));
            },
        }
        assert(a.terms[n] == (BcfTerm::Pred {
            op: s.code,
            left: (n - 2) as usize,
            right: (n - 1) as usize,
            jmp32,
        }));
        assert(left < n - 2);
        assert(term_value(a.terms, vars, n - 1) == 0);
        assert(term_value(a.terms, vars, n - 2) == if jmp32 {
            ((regs[l] as u32) & (rv as u32)) as u64
        } else {
            regs[l] & rv
        }) by {
            if s.right is Imm {
                assert(term_value(a.terms, vars, n - 3) == immediate(s.right->Imm_0, jmp32));
            }
        }
    } else {
        match s.right {
            Operand::Reg(r) => {
                assert(a.terms[n] == (BcfTerm::Pred {
                    op: s.code,
                    left: left as usize,
                    right: a.bindings[r.spec_index()]->0.expr,
                    jmp32,
                }));
            },
            Operand::Imm(c) => {
                assert(a.terms[n - 1] is Val);
                assert(a.terms[n] == (BcfTerm::Pred {
                    op: s.code,
                    left: left as usize,
                    right: (n - 1) as usize,
                    jmp32,
                }));
                assert(term_value(a.terms, vars, n - 1) == immediate(c, jmp32));
            },
        }
    }
}

proof fn lemma_ranges_hold(v: StateView, s: BranchSide, vars: spec_fn(int) -> u64, regs: Seq<u64>)
    requires
        v.regs.len() == 11,
        numbers(v, s.left, s.right),
        table_ok(v.bcf->0),
        recorded_table(v.bcf->0, v, s).terms.len() <= usize::MAX,
        reads(recorded_table(v.bcf->0, v, s), vars, regs),
    ensures
        (forall|i: int|
            v.bcf->0.conds.len() <= i < recorded_table(v.bcf->0, v, s).conds.len() - 1
                ==> cond_holds(
                recorded_table(v.bcf->0, v, s).terms,
                vars,
                #[trigger] recorded_table(v.bcf->0, v, s).conds[i],
            )) <==> new_ranges(v, s.left, s.right, regs),
{
    let b = v.bcf->0;
    let a = recorded_table(b, v, s);
    let l = s.left.spec_index();
    let n = b.conds.len() as int;
    assert(a.bindings[l] is Some);
    let first = unread(b, s.left);
    if first {
        assert(a.conds[n] == (PathCond::Range {
            expr: a.bindings[l]->0.expr,
            bounds: v.regs[l].bounds,
            pc: s.pc,
        }));
    }
    match s.right {
        Operand::Reg(r) => {
            let k = r.spec_index();
            assert(a.bindings[k] is Some);
            if unread(b, r) && r != s.left {
                let m = if first {
                    n + 1
                } else {
                    n
                };
                assert(a.conds[m] == (PathCond::Range {
                    expr: a.bindings[k]->0.expr,
                    bounds: v.regs[k].bounds,
                    pc: s.pc,
                }));
            }
        },
        Operand::Imm(c) => {},
    }
}

// ---------------------------------------------------------------------------
// Laws
// ---------------------------------------------------------------------------

/// A recorded branch means what it compares: whatever the registers hold, the last
/// condition of the table holds exactly where the comparison with the given code
/// does, of the left operand with the right one in this order, at the width of the
/// branch. A bit test compares the bits that both operands have with zero.
pub proof fn law_recorded_branches_mean_their_code(state: &mut State, s: BranchSide)
    requires
        call_ensures(record_path_cond_for_side, (state, s), ()),
        numbers((*state)@, s.left, s.right),
        table_ok((*state)@.bcf->0),
    ensures
        says(
            old(state)@,
            final(state)@,
            s.left,
            s.right,
            |regs: Seq<u64>| compared_at(s, regs),
        ),
        final(state)@.regs == old(state)@.regs,
{
    lemma_table_fits(*state);
    lemma_table_fits(*final(state));
    lemma_recorded((*state)@, s);
}

/// Where there is no symbolic table, or an operand is not a number, nothing is
/// recorded.
pub proof fn law_only_numbers_are_recorded(state: &mut State, s: BranchSide)
    requires
        call_ensures(record_path_cond_for_side, (state, s), ()),
        (*state)@.bcf is None || s.left == Reg::R10 || (*state)@.regs[s.left.spec_index()].ty
            != RegType::ScalarValue || (s.right matches Operand::Reg(r)
            && (*state)@.regs[r.spec_index()].ty != RegType::ScalarValue),
    ensures
        final(state)@ == old(state)@,
{
}

/// Whether a slot is the same as before, but for a term.
pub open spec fn same_but_term(before: StackSlot, after: StackSlot) -> bool {
    after == (StackSlot { bcf_expr: after.bcf_expr, ..before })
}

/// Whether a slot holds a number of a class and has no term.
pub open spec fn awaits_term(slot: StackSlot, id: Option<u32>) -> bool {
    slot.bcf_expr is None && slot.reg_type == RegType::ScalarValue && slot.scalar_id is Some
        && slot.scalar_id == id
}

/// Whether an operand's term is the one that a slot was given.
pub open spec fn lent_by(v: StateView, slot: StackSlot, r: Reg, term: usize) -> bool {
    v.regs[r.spec_index()].scalar_id == slot.scalar_id && (
    v.bcf->0.bindings[r.spec_index()] matches Some(x) && x.expr == term)
}

/// Slots get terms of operands only where terms are shared with slots, only where
/// they hold a number of the operand's class and have no term yet, and only the
/// operand's own term; nothing else of a slot changes. A slot of the left operand's
/// class does get one, unless the operand is a known constant.
pub proof fn law_slots_borrow_terms_of_their_class(
    state: &mut State,
    s: BranchSide,
    f: int,
    k: int,
)
    requires
        call_ensures(record_path_cond_for_side, (state, s), ()),
        numbers((*state)@, s.left, s.right),
        table_ok((*state)@.bcf->0),
        0 <= f < (*state)@.frames.len(),
        0 <= k < (*state)@.frames[f].slots.len(),
    ensures
        final(state)@.frames.len() == old(state)@.frames.len(),
        final(state)@.frames[f].slots.len() == old(state)@.frames[f].slots.len(),
        ({
            let before = old(state)@.frames[f].slots[k];
            let after = final(state)@.frames[f].slots[k];
            let shares = old(state)@.bcf->0.share_slot_vars;
            &&& same_but_term(before, after)
            &&& after.bcf_expr != before.bcf_expr ==> shares && (awaits_term(
                before,
                old(state)@.regs[s.left.spec_index()].scalar_id,
            ) && lent_by(final(state)@, before, s.left, after.bcf_expr->0) || (
            s.right matches Operand::Reg(r) && awaits_term(
                before,
                old(state)@.regs[r.spec_index()].scalar_id,
            ) && lent_by(final(state)@, before, r, after.bcf_expr->0)))
            &&& shares && awaits_term(before, old(state)@.regs[s.left.spec_index()].scalar_id)
                && old(state)@.regs[s.left.spec_index()].bounds.const_val is None ==> after.bcf_expr
                is Some && lent_by(final(state)@, before, s.left, after.bcf_expr->0)
        }),
{
}

/// Whether the last condition is that a conditional jump goes to one of its sides.
pub open spec fn says_side(
    before: StateView,
    after: StateView,
    instr: Instr,
    taken: bool,
) -> bool {
    says(
        before,
        after,
        instr->If_left,
        instr->If_right,
        |regs: Seq<u64>|
            relation_at(
                instr->If_width,
                instr->If_op,
                regs[instr->If_left.spec_index()],
                operand_value(instr->If_right, regs),
            ) == taken,
    )
}

/// The condition that a side of a conditional jump leaves holds exactly where the
/// jump, executed on the registers, goes to that side: on the taken side where its
/// relation holds, on the other where it does not. That goes for every relation,
/// bit tests among them, for both widths and for both forms of the right operand.
pub proof fn law_recorded_sides_mean_their_relation(
    state: &mut State,
    instr: Instr,
    pc: usize,
    pre_bounds: RegBounds,
    taken: bool,
)
    requires
        instr is If,
        call_ensures(record_side, (state, &instr, pc, pre_bounds, taken), ()),
        numbers((*state)@, instr->If_left, instr->If_right),
        table_ok((*state)@.bcf->0),
    ensures
        says_side(old(state)@, final(state)@, instr, taken),
        final(state)@.regs == old(state)@.regs,
{
    lemma_table_fits(*state);
    lemma_table_fits(*final(state));
    let s = side_of(instr, pc, pre_bounds, taken);
    lemma_recorded((*state)@, s);
    lemma_side(s, instr, taken);
    let f = |regs: Seq<u64>| compared_at(s, regs);
    let g = |regs: Seq<u64>|
        relation_at(
            instr->If_width,
            instr->If_op,
            regs[instr->If_left.spec_index()],
            operand_value(instr->If_right, regs),
        ) == taken;
    assert(f =~= g);
}

pub(crate) proof fn lemma_side(s: BranchSide, instr: Instr, taken: bool)
    requires
        instr is If,
        s.width == instr->If_width,
        s.left == instr->If_left,
        s.op == instr->If_op,
        s.right == instr->If_right,
        s.code == branch_code(s.op, taken),
    ensures
        forall|regs: Seq<u64>| #[trigger]
            compared_at(s, regs) == (relation_at(
                s.width,
                s.op,
                regs[s.left.spec_index()],
                operand_value(s.right, regs),
            ) == taken),
{
    assert forall|regs: Seq<u64>| #[trigger]
        compared_at(s, regs) == (relation_at(
            s.width,
            s.op,
            regs[s.left.spec_index()],
            operand_value(s.right, regs),
        ) == taken) by {
        let l = regs[s.left.spec_index()];
        let r = operand_value(s.right, regs);
        lemma_low_half((l as u32) & (r as u32));
        lemma_low_half(0);
    }
}

pub(crate) proof fn lemma_table_fits(state: State)
    ensures
        state@.bcf matches Some(t) ==> t.terms.len() <= usize::MAX,
        state@.regs.len() == 11,
{
    match state.bcf {
        Some(t) => {
            assert(t.terms@.len() == t.terms.len());
        },
        None => {},
    }
}

}
