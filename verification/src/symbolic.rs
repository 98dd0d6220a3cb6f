//! The symbolic side of a path: the terms that branch recording builds and the
//! conditions it collects.
//!
//! A term is named by its position in the table. A register that is read for
//! the first time gets a term of its own and stays bound to it, and the range that
//! it has then becomes a condition.

use vstd::prelude::*;

use crate::vectors::copy_vec;

verus! {

pub const BPF_JEQ: u8 = 0x10;
pub const BPF_JGT: u8 = 0x20;
pub const BPF_JGE: u8 = 0x30;
pub const BPF_JNE: u8 = 0x50;
pub const BPF_JSGT: u8 = 0x60;
pub const BPF_JSGE: u8 = 0x70;
pub const BPF_JLT: u8 = 0xa0;
pub const BPF_JLE: u8 = 0xb0;
pub const BPF_JSLT: u8 = 0xc0;
pub const BPF_JSLE: u8 = 0xd0;
pub const BPF_AND: u8 = 0x50;

/// The value range of a register.
#[derive(Clone, Copy, Debug, PartialEq, Eq)]
pub struct RegBounds {
    pub const_val: Option<u64>,
    pub umin: u64,
    pub umax: u64,
    pub smin: i64,
    pub smax: i64,
}

/// A term of the symbolic table.
#[derive(Clone, Copy, Debug, PartialEq, Eq)]
pub enum BcfTerm {
    /// A register read for the first time.
    RegVar { reg: usize },
    /// A constant.
    Val { value: u64, jmp32: bool },
    /// A two-operand computation.
    Alu { op: u8, left: usize, right: usize, bits: u16 },
    /// A comparison, of the low halves where `jmp32` is set.
    Pred { op: u8, left: usize, right: usize, jmp32: bool },
}

/// The term a register is bound to, and where that happened.
#[derive(Clone, Copy, Debug, PartialEq, Eq)]
pub struct Binding {
    pub expr: usize,
    pub pc: usize,
}

/// The side of a branch on which the left operand collapses to a constant.
#[derive(Clone, Copy, Debug, PartialEq, Eq)]
pub struct Narrowed {
    pub value: u64,
    pub op: u8,
    pub jmp32: bool,
    pub materialized_at: Option<usize>,
}

/// The left operand of a recorded branch, as it was on entry.
#[derive(Clone, Copy, Debug, PartialEq, Eq)]
pub struct LhsRecord {
    pub reg: usize,
    pub materialized_at: Option<usize>,
    pub jmp32: bool,
    pub bounds: RegBounds,
    pub pre_bounds: RegBounds,
}

/// A condition of a path, with the place of the branch at which it was recorded.
#[derive(Clone, Copy, Debug, PartialEq, Eq)]
pub enum PathCond {
    /// A register that a branch reads for the first time lies in the range that it
    /// has then.
    Range { expr: usize, bounds: RegBounds, pc: usize },
    /// A branch went to one of its sides.
    Branch { pred: usize, pc: usize, narrowed: Option<Narrowed>, lhs: LhsRecord },
}

impl PathCond {
    /// The place of the branch at which a condition was recorded.
    pub open spec fn spec_pc(self) -> usize {
        match self {
            PathCond::Range { expr, bounds, pc } => pc,
            PathCond::Branch { pred, pc, narrowed, lhs } => pc,
        }
    }

    /// The place of the branch at which a condition was recorded.
    pub fn pc(&self) -> (r: usize)
        ensures
            r == self.spec_pc(),
    {
        match *self {
            PathCond::Range { pc, .. } => pc,
            PathCond::Branch { pc, .. } => pc,
        }
    }
}

/// The symbolic table of a path.
pub struct SymbolicState {
    pub terms: Vec<BcfTerm>,
    pub conds: Vec<PathCond>,
    pub bindings: [Option<Binding>; 10],
    pub current_pc: usize,
    pub share_slot_vars: bool,
}

/// What a symbolic table holds.
#[verifier::ext_equal]
pub struct SymbolicView {
    pub terms: Seq<BcfTerm>,
    pub conds: Seq<PathCond>,
    pub bindings: Seq<Option<Binding>>,
    pub current_pc: usize,
    pub share_slot_vars: bool,
}

impl View for SymbolicState {
    type V = SymbolicView;

    open spec fn view(&self) -> SymbolicView {
        SymbolicView {
            terms: self.terms@,
            conds: self.conds@,
            bindings: self.bindings@,
            current_pc: self.current_pc,
            share_slot_vars: self.share_slot_vars,
        }
    }
}

impl SymbolicView {
    /// The table with one more term, which is named by the old length.
    pub open spec fn push(self, t: BcfTerm) -> SymbolicView {
        SymbolicView { terms: self.terms.push(t), ..self }
    }

    /// The name that the next term gets.
    pub open spec fn next(self) -> usize {
        self.terms.len() as usize
    }

    /// Where a register was bound.
    pub open spec fn bound_at(self, reg: int) -> Option<usize> {
        match self.bindings[reg] {
            Some(b) => Some(b.pc),
            None => None,
        }
    }

    /// The table after a read of `reg`: an unbound register is bound to a fresh
    /// variable, and that this lies in the given range becomes a condition.
    pub open spec fn read_reg(self, reg: int, bounds: RegBounds) -> SymbolicView {
        match self.bindings[reg] {
            Some(b) => self,
            None => SymbolicView {
                bindings: self.bindings.update(
                    reg,
                    Some(Binding { expr: self.next(), pc: self.current_pc }),
                ),
                conds: self.conds.push(
                    PathCond::Range { expr: self.next(), bounds, pc: self.current_pc },
                ),
                ..self.push(BcfTerm::RegVar { reg: reg as usize })
            },
        }
    }

    /// The term that a read of `reg` gives.
    pub open spec fn reg_term(self, reg: int) -> usize {
        match self.bindings[reg] {
            Some(b) => b.expr,
            None => self.next(),
        }
    }

    /// An empty table that keeps only the slot-sharing mode.
    pub open spec fn fresh(share_slot_vars: bool) -> SymbolicView {
        SymbolicView {
            terms: Seq::empty(),
            conds: Seq::empty(),
            bindings: Seq::new(10, |i: int| None),
            current_pc: 0,
            share_slot_vars,
        }
    }
}

impl SymbolicState {
    /// A table without terms, conditions or bindings.
    pub fn new(share_slot_vars: bool) -> (r: SymbolicState)
        ensures
            r@ == SymbolicView::fresh(share_slot_vars),
    {
        let r = SymbolicState {
            terms: Vec::new(),
            conds: Vec::new(),
            bindings: [None, None, None, None, None, None, None, None, None, None],
            current_pc: 0,
            share_slot_vars,
        };
        assert(r@.bindings =~= SymbolicView::fresh(share_slot_vars).bindings);
        r
    }

    /// A table with the same contents.
    pub fn duplicate(&self) -> (r: SymbolicState)
        ensures
            r@ == self@,
    {
        SymbolicState {
            terms: copy_vec(&self.terms),
            conds: copy_vec(&self.conds),
            bindings: self.bindings,
            current_pc: self.current_pc,
            share_slot_vars: self.share_slot_vars,
        }
    }

    /// Adds a term and returns its name.
    pub fn push(&mut self, t: BcfTerm) -> (r: usize)
        ensures
            final(self)@ == old(self)@.push(t),
            r == old(self)@.next(),
    {
        let r: usize = self.terms.len();
        self.terms.push(t);
        r
    }

    /// Where a register was bound, if it is.
    pub fn bound_at(&self, reg: usize) -> (r: Option<usize>)
        requires
            reg < 10,
        ensures
            r == self@.bound_at(reg as int),
    {
        match self.bindings[reg] {
            Some(b) => Some(b.pc),
            None => None,
        }
    }

    /// The term a register is bound to, if it is.
    pub fn bound_term(&self, reg: usize) -> (r: Option<usize>)
        requires
            reg < 10,
        ensures
            r == (match self@.bindings[reg as int] {
                Some(b) => Some(b.expr),
                None => None,
            }),
    {
        match self.bindings[reg] {
            Some(b) => Some(b.expr),
            None => None,
        }
    }

    /// Reads a register, binding it first where it is unbound.
    pub fn read_reg(&mut self, reg: usize, bounds: RegBounds) -> (r: usize)
        requires
            reg < 10,
        ensures
            final(self)@ == old(self)@.read_reg(reg as int, bounds),
            r == old(self)@.reg_term(reg as int),
    {
        match self.bindings[reg] {
            Some(b) => b.expr,
            None => {
                let expr: usize = self.push(BcfTerm::RegVar { reg });
                self.conds.push(PathCond::Range { expr, bounds, pc: self.current_pc });
                self.bindings[reg] = Some(Binding { expr, pc: self.current_pc });
                expr
            },
        }
    }
}

}
