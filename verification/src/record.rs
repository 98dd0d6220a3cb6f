//! Path conditions: what a branch adds to the symbolic side of a path.

use vstd::prelude::*;

use crate::ast::{CmpOp, Operand, Reg, Width};
use crate::machine::{frame_views, Frame, FrameView, RegType, StackSlot, State, StateView};
use crate::symbolic::{
    BcfTerm, LhsRecord, Narrowed, PathCond, RegBounds, SymbolicState, SymbolicView, BPF_AND,
    BPF_JEQ, BPF_JGE, BPF_JGT, BPF_JLE, BPF_JLT, BPF_JNE, BPF_JSGE, BPF_JSGT, BPF_JSLE, BPF_JSLT,
};

verus! {

/// The jump codes of a relation and of its negation. A bit test has none: it is
/// recorded as a comparison with zero.
pub open spec fn jump_codes(op: CmpOp) -> Option<(u8, u8)> {
    match op {
        CmpOp::Eq => Some((BPF_JEQ, BPF_JNE)),
        CmpOp::Ne => Some((BPF_JNE, BPF_JEQ)),
        CmpOp::UGt => Some((BPF_JGT, BPF_JLE)),
        CmpOp::UGe => Some((BPF_JGE, BPF_JLT)),
        CmpOp::ULt => Some((BPF_JLT, BPF_JGE)),
        CmpOp::ULe => Some((BPF_JLE, BPF_JGT)),
        CmpOp::SGt => Some((BPF_JSGT, BPF_JSLE)),
        CmpOp::SGe => Some((BPF_JSGE, BPF_JSLT)),
        CmpOp::SLt => Some((BPF_JSLT, BPF_JSGE)),
        CmpOp::SLe => Some((BPF_JSLE, BPF_JSGT)),
        CmpOp::Test => None,
    }
}

/// The jump codes of a relation and of its negation.
pub fn cmp_op_to_bcf_pair(op: CmpOp) -> (r: Option<(u8, u8)>)
    ensures
        r == jump_codes(op),
{
    match op {
        CmpOp::Eq => Some((BPF_JEQ, BPF_JNE)),
        CmpOp::Ne => Some((BPF_JNE, BPF_JEQ)),
        CmpOp::UGt => Some((BPF_JGT, BPF_JLE)),
        CmpOp::UGe => Some((BPF_JGE, BPF_JLT)),
        CmpOp::ULt => Some((BPF_JLT, BPF_JGE)),
        CmpOp::ULe => Some((BPF_JLE, BPF_JGT)),
        CmpOp::SGt => Some((BPF_JSGT, BPF_JSLE)),
        CmpOp::SGe => Some((BPF_JSGE, BPF_JSLT)),
        CmpOp::SLt => Some((BPF_JSLT, BPF_JSGE)),
        CmpOp::SLe => Some((BPF_JSLE, BPF_JSGT)),
        CmpOp::Test => None,
    }
}

/// The code of one side of a branch.
pub open spec fn side_code(op: CmpOp, taken: bool) -> Option<u8> {
    match jump_codes(op) {
        Some(codes) => Some(
            if taken {
                codes.0
            } else {
                codes.1
            },
        ),
        None => None,
    }
}

/// The code of one side of a branch.
pub fn code_of_side(op: CmpOp, taken: bool) -> (r: Option<u8>)
    ensures
        r == side_code(op, taken),
{
    match cmp_op_to_bcf_pair(op) {
        Some((then_code, else_code)) => Some(
            if taken {
                then_code
            } else {
                else_code
            },
        ),
        None => None,
    }
}

/// The branch whose condition is recorded: its instruction, the code of the side
/// that was followed, and where it stands.
#[derive(Clone, Copy, Debug)]
pub struct BranchSide {
    pub width: Width,
    pub left: Reg,
    pub op: CmpOp,
    pub code: u8,
    pub right: Operand,
    pub pc: usize,
    /// The constant that the left operand collapses to on this side.
    pub narrowed: Option<u64>,
    /// The left operand's range before the branch.
    pub pre_bounds: RegBounds,
}

/// Whether a branch is recorded: only numbers are compared symbolically.
pub open spec fn recordable(v: StateView, s: BranchSide) -> bool {
    &&& v.bcf is Some
    &&& s.left.spec_bcf_idx() is Some
    &&& v.regs[s.left.spec_index()].ty == RegType::ScalarValue
    &&& s.right matches Operand::Reg(r) ==> v.regs[r.spec_index()].ty == RegType::ScalarValue
}

/// The value of an immediate operand at a width.
pub open spec fn immediate(c: i64, jmp32: bool) -> u64 {
    if jmp32 {
        (c as u32) as u64
    } else {
        c as u64
    }
}

/// The value of an immediate operand at a width.
pub fn immediate_value(c: i64, jmp32: bool) -> (r: u64)
    ensures
        r == immediate(c, jmp32),
{
    if jmp32 {
        #[verifier::truncate]
        ((c as u32) as u64)
    } else {
        #[verifier::truncate]
        (c as u64)
    }
}

/// The table after the right operand was read.
pub open spec fn right_read(b: SymbolicView, v: StateView, right: Operand, jmp32: bool) -> SymbolicView {
    match right {
        Operand::Imm(c) => b.push(BcfTerm::Val { value: immediate(c, jmp32), jmp32 }),
        Operand::Reg(r) => match r.spec_bcf_idx() {
            Some(i) => b.read_reg(i as int, v.regs[r.spec_index()].bounds),
            None => b.push(BcfTerm::Val { value: 0, jmp32 }),
        },
    }
}

/// The term of the right operand.
pub open spec fn right_term(b: SymbolicView, right: Operand) -> usize {
    match right {
        Operand::Imm(c) => b.next(),
        Operand::Reg(r) => match r.spec_bcf_idx() {
            Some(i) => b.reg_term(i as int),
            None => b.next(),
        },
    }
}

/// The table with the comparison of two terms as its last term. A bit test
/// compares their conjunction with zero.
pub open spec fn compared(
    b: SymbolicView,
    op: CmpOp,
    code: u8,
    left: usize,
    right: usize,
    jmp32: bool,
) -> SymbolicView {
    if op != CmpOp::Test {
        b.push(BcfTerm::Pred { op: code, left, right, jmp32 })
    } else {
        let bits: u16 = if jmp32 {
            32
        } else {
            64
        };
        let b1 = b.push(BcfTerm::Alu { op: BPF_AND, left, right, bits });
        let b2 = b1.push(BcfTerm::Val { value: 0, jmp32 });
        b2.push(BcfTerm::Pred { op: code, left: b.next(), right: b1.next(), jmp32 })
    }
}

/// The table after a branch was recorded: both operands are read, and the
/// comparison becomes the last condition. An operand that is read for the first
/// time leaves a condition of its own before it, on the range it has then.
pub open spec fn recorded_table(b: SymbolicView, v: StateView, s: BranchSide) -> SymbolicView {
    let jmp32 = s.width == Width::W32;
    let l = s.left.spec_index();
    let lhs_bounds = v.regs[l].bounds;
    let b0 = SymbolicView { current_pc: s.pc, ..b };
    let b1 = b0.read_reg(l, lhs_bounds);
    let b2 = right_read(b1, v, s.right, jmp32);
    let b3 = compared(b2, s.op, s.code, b0.reg_term(l), right_term(b1, s.right), jmp32);
    SymbolicView {
        conds: b3.conds.push(
            PathCond::Branch {
                pred: (b3.terms.len() - 1) as usize,
                pc: s.pc,
                narrowed: match s.narrowed {
                    Some(value) => Some(
                        Narrowed { value, op: s.code, jmp32, materialized_at: b0.bound_at(l) },
                    ),
                    None => None,
                },
                lhs: LhsRecord {
                    reg: l as usize,
                    materialized_at: b0.bound_at(l),
                    jmp32,
                    bounds: lhs_bounds,
                    pre_bounds: s.pre_bounds,
                },
            },
        ),
        ..b3
    }
}

/// A slot that holds a number of a class gets the class's term, unless it has
/// one.
pub open spec fn stamped_slot(s: StackSlot, id: u32, term: usize) -> StackSlot {
    if s.bcf_expr is None && s.scalar_id == Some(id) && s.reg_type == RegType::ScalarValue {
        StackSlot { bcf_expr: Some(term), ..s }
    } else {
        s
    }
}

/// A frame whose slots of a class have the class's term.
pub open spec fn stamped_frame(f: FrameView, id: u32, term: usize) -> FrameView {
    FrameView { slots: f.slots.map_values(|s: StackSlot| stamped_slot(s, id, term)), ..f }
}

/// A state whose slots of a class have the class's term.
pub open spec fn stamped(v: StateView, id: u32, term: usize) -> StateView {
    StateView { frames: v.frames.map_values(|f: FrameView| stamped_frame(f, id, term)), ..v }
}

/// The class and the term that an operand shares with the slots it was copied
/// from or to, where its value is not known.
pub open spec fn shared_term(v: StateView, r: Reg, fixed: bool) -> Option<(u32, usize)> {
    match (v.bcf, r.spec_bcf_idx(), v.regs[r.spec_index()].scalar_id) {
        (Some(b), Some(i), Some(id)) => match b.bindings[i as int] {
            Some(binding) => if fixed {
                None
            } else {
                Some((id, binding.expr))
            },
            None => None,
        },
        _ => None,
    }
}

/// A state whose slots have an operand's term.
pub open spec fn shared(v: StateView, term: Option<(u32, usize)>) -> StateView {
    match term {
        Some((id, e)) => stamped(v, id, e),
        None => v,
    }
}

/// The state after a branch was recorded. In the mode that shares terms with
/// stack slots, the operands' terms are then given to the slots of their classes.
pub open spec fn recorded(v: StateView, s: BranchSide) -> StateView {
    if !recordable(v, s) {
        v
    } else {
        let v1 = StateView { bcf: Some(recorded_table(v.bcf->0, v, s)), ..v };
        if !v.bcf->0.share_slot_vars {
            v1
        } else {
            let l = shared_term(v1, s.left, v.regs[s.left.spec_index()].bounds.const_val is Some);
            let r = match s.right {
                Operand::Reg(r) => shared_term(v1, r, v.regs[r.spec_index()].fixed is Some),
                Operand::Imm(c) => None,
            };
            shared(shared(v1, l), r)
        }
    }
}

/// Gives a class's term to the slots that hold a number of the class.
pub fn stamp_slots(state: &mut State, id: u32, term: usize)
    ensures
        final(state)@ == stamped(old(state)@, id, term),
{
    let ghost v0 = state@;
    let mut frames: Vec<Frame> = Vec::new();
    let mut k: usize = 0;
    while k < state.frames.len()
        invariant
            k <= state.frames@.len(),
            *state == *old(state),
            frames@.len() == k,
            forall|j: int|
                0 <= j < k ==> #[trigger] frames@[j]@ == stamped_frame(
                    state.frames@[j]@,
                    id,
                    term,
                ),
        decreases state.frames@.len() - k,
    {
        let f = &state.frames[k];
        let mut slots: Vec<StackSlot> = Vec::new();
        let mut m: usize = 0;
        while m < f.slots.len()
            invariant
                m <= f.slots@.len(),
                slots@.len() == m,
                forall|j: int|
                    0 <= j < m ==> #[trigger] slots@[j] == stamped_slot(f.slots@[j], id, term),
            decreases f.slots@.len() - m,
        {
            let mut slot = f.slots[m];
            if slot.bcf_expr.is_none() {
                match (slot.scalar_id, slot.reg_type) {
                    (Some(own), RegType::ScalarValue) => {
                        if own == id {
                            slot.bcf_expr = Some(term);
                        }
                    },
                    _ => {},
                }
            }
            slots.push(slot);
            m += 1;
        }
        let g = Frame { return_pc: f.return_pc, active_iterators: f.active_iterators, slots };
        assert(g@.slots =~= stamped_frame(f@, id, term).slots);
        frames.push(g);
        k += 1;
    }
    assert(frame_views(frames@) =~= stamped(v0, id, term).frames);
    state.frames = frames;
}

fn is_scalar(ty: RegType) -> (r: bool)
    ensures
        r == (ty == RegType::ScalarValue),
{
    match ty {
        RegType::ScalarValue => true,
        _ => false,
    }
}

fn is_recordable(state: &State, s: &BranchSide) -> (r: bool)
    ensures
        r == recordable(state@, *s),
{
    if state.bcf.is_none() || s.left.bcf_idx().is_none() || !is_scalar(state.reg(s.left).ty) {
        return false;
    }
    match s.right {
        Operand::Reg(r) => is_scalar(state.reg(r).ty),
        Operand::Imm(_) => true,
    }
}

fn find_shared_term(state: &State, r: Reg, fixed: bool) -> (out: Option<(u32, usize)>)
    ensures
        out == shared_term(state@, r, fixed),
{
    if fixed {
        return None;
    }
    match (&state.bcf, r.bcf_idx(), state.reg(r).scalar_id) {
        (Some(b), Some(i), Some(id)) => match b.bound_term(i) {
            Some(e) => Some((id, e)),
            None => None,
        },
        _ => None,
    }
}

fn record_in_table(b: &mut SymbolicState, state: &State, s: &BranchSide)
    requires
        s.left.spec_bcf_idx() is Some,
    ensures
        final(b)@ == recorded_table(old(b)@, state@, *s),
{
    let jmp32 = s.width == Width::W32;
    let l: usize = s.left.index();
    let lhs_bounds = state.reg(s.left).bounds;
    b.current_pc = s.pc;
    let materialized_at = b.bound_at(l);
    let left: usize = b.read_reg(l, lhs_bounds);
    let right: usize = match s.right {
        Operand::Imm(c) => {
            let value: u64 = immediate_value(c, jmp32);
            b.push(BcfTerm::Val { value, jmp32 })
        },
        Operand::Reg(r) => match r.bcf_idx() {
            Some(i) => b.read_reg(i, state.reg(r).bounds),
            None => b.push(BcfTerm::Val { value: 0, jmp32 }),
        },
    };
    let pred: usize = if s.op != CmpOp::Test {
        b.push(BcfTerm::Pred { op: s.code, left, right, jmp32 })
    } else {
        let bits: u16 = if jmp32 {
            32
        } else {
            64
        };
        let and: usize = b.push(BcfTerm::Alu { op: BPF_AND, left, right, bits });
        let zero: usize = b.push(BcfTerm::Val { value: 0, jmp32 });
        b.push(BcfTerm::Pred { op: s.code, left: and, right: zero, jmp32 })
    };
    let narrowed = match s.narrowed {
        Some(value) => Some(Narrowed { value, op: s.code, jmp32, materialized_at }),
        None => None,
    };
    b.conds.push(
        PathCond::Branch {
            pred,
            pc: s.pc,
            narrowed,
            lhs: LhsRecord {
                reg: l,
                materialized_at,
                jmp32,
                bounds: lhs_bounds,
                pre_bounds: s.pre_bounds,
            },
        },
    );
}

/// Records the condition of the side of a branch that a state took. Nothing is
/// recorded where the state has no symbolic side, or where an operand is not a
/// number.
pub fn record_path_cond_for_side(state: &mut State, s: BranchSide)
    ensures
        final(state)@ == recorded(old(state)@, s),
{
    if !is_recordable(&*state, &s) {
        return;
    }
    let ghost v0 = state@;
    let mut share = false;
    let mut taken: Option<SymbolicState> = None;
    std::mem::swap(&mut taken, &mut state.bcf);
    match taken {
        Some(mut b) => {
            share = b.share_slot_vars;
            record_in_table(&mut b, &*state, &s);
            state.bcf = Some(b);
        },
        None => {},
    }
    if share {
        let l = find_shared_term(&*state, s.left, state.reg(s.left).bounds.const_val.is_some());
        let r = match s.right {
            Operand::Reg(r) => find_shared_term(&*state, r, state.reg(r).fixed.is_some()),
            Operand::Imm(_) => None,
        };
        match l {
            Some((id, e)) => stamp_slots(state, id, e),
            None => {},
        }
        match r {
            Some((id, e)) => stamp_slots(state, id, e),
            None => {},
        }
    }
}

// ---------------------------------------------------------------------------
// Laws
// ---------------------------------------------------------------------------

/// Whether a relation holds between two words.
pub open spec fn relation_holds(op: CmpOp, l: u64, r: u64) -> bool {
    match op {
        CmpOp::Eq => l == r,
        CmpOp::Ne => l != r,
        CmpOp::UGt => l > r,
        CmpOp::UGe => l >= r,
        CmpOp::ULt => l < r,
        CmpOp::ULe => l <= r,
        CmpOp::SGt => (l as i64) > (r as i64),
        CmpOp::SGe => (l as i64) >= (r as i64),
        CmpOp::SLt => (l as i64) < (r as i64),
        CmpOp::SLe => (l as i64) <= (r as i64),
        CmpOp::Test => l & r != 0,
    }
}

/// Whether a jump with a code is taken.
pub open spec fn code_holds(code: u8, l: u64, r: u64) -> bool {
    if code == BPF_JEQ {
        l == r
    } else if code == BPF_JNE {
        l != r
    } else if code == BPF_JGT {
        l > r
    } else if code == BPF_JGE {
        l >= r
    } else if code == BPF_JLT {
        l < r
    } else if code == BPF_JLE {
        l <= r
    } else if code == BPF_JSGT {
        (l as i64) > (r as i64)
    } else if code == BPF_JSGE {
        (l as i64) >= (r as i64)
    } else if code == BPF_JSLT {
        (l as i64) < (r as i64)
    } else if code == BPF_JSLE {
        (l as i64) <= (r as i64)
    } else {
        false
    }
}

/// The code of the side that is taken holds exactly where the relation does, and
/// the code of the other side exactly where it does not.
pub proof fn law_sides_are_complementary(op: CmpOp, l: u64, r: u64)
    requires
        op != CmpOp::Test,
    ensures
        side_code(op, true) is Some,
        side_code(op, false) is Some,
        code_holds(side_code(op, true)->0, l, r) == relation_holds(op, l, r),
        code_holds(side_code(op, false)->0, l, r) == !relation_holds(op, l, r),
{
}

/// Every code that a side can have belongs to the other side of some relation,
/// with the codes exchanged.
pub proof fn law_codes_come_in_pairs(op: CmpOp)
    ensures
        jump_codes(op) matches Some(codes) ==> exists|other: CmpOp|
            #[trigger] jump_codes(other) == Some((codes.1, codes.0)),
{
    let other = match op {
        CmpOp::Eq => CmpOp::Ne,
        CmpOp::Ne => CmpOp::Eq,
        CmpOp::UGt => CmpOp::ULe,
        CmpOp::UGe => CmpOp::ULt,
        CmpOp::ULt => CmpOp::UGe,
        CmpOp::ULe => CmpOp::UGt,
        CmpOp::SGt => CmpOp::SLe,
        CmpOp::SGe => CmpOp::SLt,
        CmpOp::SLt => CmpOp::SGe,
        CmpOp::SLe => CmpOp::SGt,
        CmpOp::Test => CmpOp::Test,
    };
    if op != CmpOp::Test {
        let codes = jump_codes(op)->0;
        assert(jump_codes(other) == Some((codes.1, codes.0)));
    }
}

/// How many operands of a branch are read for the first time.
pub open spec fn fresh_operands(b: SymbolicView, s: BranchSide) -> nat {
    let left: nat = if b.bindings[s.left.spec_index()] is None {
        1
    } else {
        0
    };
    let right: nat = match s.right {
        Operand::Reg(r) => match r.spec_bcf_idx() {
            Some(i) => if r != s.left && b.bindings[i as int] is None {
                1
            } else {
                0
            },
            None => 0,
        },
        Operand::Imm(c) => 0,
    };
    left + right
}

/// Recording a branch only adds: every earlier term and condition stays, a register
/// that was bound stays bound to its term, and apart from the terms of stack slots
/// nothing else of the state changes. One condition is added for the branch, which
/// comes last, and one for each operand that is read for the first time; all of
/// them bear the place of the branch.
pub proof fn law_recording_only_adds(v: StateView, s: BranchSide)
    requires
        v.regs.len() == 11,
        recordable(v, s),
        v.bcf->0.bindings.len() == 10,
    ensures
        recorded(v, s).bcf is Some,
        v.bcf->0.terms.is_prefix_of(recorded(v, s).bcf->0.terms),
        v.bcf->0.conds.is_prefix_of(recorded(v, s).bcf->0.conds),
        recorded(v, s).bcf->0.conds.len() == v.bcf->0.conds.len() + fresh_operands(v.bcf->0, s) + 1,
        recorded(v, s).bcf->0.conds.last() is Branch,
        forall|i: int|
            v.bcf->0.conds.len() <= i < recorded(v, s).bcf->0.conds.len() ==> (#[trigger] recorded(
                v,
                s,
            ).bcf->0.conds[i]).spec_pc() == s.pc,
        forall|i: int|
            v.bcf->0.conds.len() <= i < recorded(v, s).bcf->0.conds.len() - 1 ==> #[trigger] recorded(
                v,
                s,
            ).bcf->0.conds[i] is Range,
        forall|i: int|
            0 <= i < 10 && v.bcf->0.bindings[i] is Some ==> #[trigger] recorded(
                v,
                s,
            ).bcf->0.bindings[i] == v.bcf->0.bindings[i],
        recorded(v, s) == (StateView {
            bcf: recorded(v, s).bcf,
            frames: recorded(v, s).frames,
            ..v
        }),
{
    let b = v.bcf->0;
    let t = recorded_table(b, v, s);
    assert(b.terms.is_prefix_of(t.terms)) by {
        assert(forall|i: int| 0 <= i < b.terms.len() ==> t.terms[i] == b.terms[i]);
        assert(b.terms =~= t.terms.subrange(0, b.terms.len() as int));
    }
    assert(b.conds =~= t.conds.subrange(0, b.conds.len() as int));
}

}
