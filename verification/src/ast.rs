//! Programs: kinds, registers and the instructions that steer an exploration.

use vstd::prelude::*;

verus! {

/// What a program is attached to, as far as the rules tell kinds apart.
#[derive(Clone, Copy, Debug, PartialEq, Eq, Structural)]
pub enum ProgramKind {
    SocketFilter,
    SchedCls,
    SchedAct,
    Xdp,
    CgroupSkb,
    CgroupSock,
    CgroupSockAddr,
    CgroupSockopt,
    SockOps,
    SkSkb,
    SkMsg,
    SkLookup,
    SkReuseport,
    FlowDissector,
    LwtIn,
    LwtOut,
    LwtXmit,
    Netfilter,
    Kprobe,
    PerfEvent,
    Tracepoint,
    RawTracepoint,
    RawTracepointWritable,
    Tracing,
    Lsm,
    StructOps,
    Syscall,
    Unknown,
}

/// The context structure that a program receives in its first register.
#[derive(Clone, Copy, Debug, PartialEq, Eq, Structural)]
pub enum ContextKind {
    SkBuff,
    XdpMd,
    BpfSockAddr,
    BpfSockopt,
    SkLookup,
    SkReuseport,
    SockOps,
    BpfSock,
    SkMsgMd,
    PtRegs,
    IterTask,
    /// A structure without a field table.
    Unmodeled,
}

/// The width of a memory access.
#[derive(Clone, Copy, Debug, PartialEq, Eq, Structural)]
pub enum MemSize {
    U8,
    U16,
    U32,
    U64,
}

impl MemSize {
    /// The width in bytes.
    pub open spec fn spec_bytes(self) -> int {
        match self {
            MemSize::U8 => 1,
            MemSize::U16 => 2,
            MemSize::U32 => 4,
            MemSize::U64 => 8,
        }
    }

    /// The width in bytes.
    pub fn bytes(self) -> (r: usize)
        ensures
            r == self.spec_bytes(),
    {
        match self {
            MemSize::U8 => 1,
            MemSize::U16 => 2,
            MemSize::U32 => 4,
            MemSize::U64 => 8,
        }
    }
}

/// The width of an arithmetic or jump instruction.
#[derive(Clone, Copy, Debug, PartialEq, Eq, Structural)]
pub enum Width {
    W32,
    W64,
}

/// The relation that a conditional jump tests.
#[derive(Clone, Copy, Debug, PartialEq, Eq, Structural)]
pub enum CmpOp {
    Eq,
    Ne,
    UGt,
    UGe,
    ULt,
    ULe,
    SGt,
    SGe,
    SLt,
    SLe,
    /// Some bit is set in both operands.
    Test,
}

/// A machine register.
#[derive(Clone, Copy, Debug, PartialEq, Eq, Structural)]
pub enum Reg {
    R0,
    R1,
    R2,
    R3,
    R4,
    R5,
    R6,
    R7,
    R8,
    R9,
    R10,
}

impl Reg {
    /// The register's number.
    pub open spec fn spec_index(self) -> int {
        match self {
            Reg::R0 => 0,
            Reg::R1 => 1,
            Reg::R2 => 2,
            Reg::R3 => 3,
            Reg::R4 => 4,
            Reg::R5 => 5,
            Reg::R6 => 6,
            Reg::R7 => 7,
            Reg::R8 => 8,
            Reg::R9 => 9,
            Reg::R10 => 10,
        }
    }

    /// The register's number.
    pub fn index(self) -> (r: usize)
        ensures
            r == self.spec_index(),
            r < 11,
    {
        match self {
            Reg::R0 => 0,
            Reg::R1 => 1,
            Reg::R2 => 2,
            Reg::R3 => 3,
            Reg::R4 => 4,
            Reg::R5 => 5,
            Reg::R6 => 6,
            Reg::R7 => 7,
            Reg::R8 => 8,
            Reg::R9 => 9,
            Reg::R10 => 10,
        }
    }

    /// The row of the symbolic binding table that belongs to the register;
    /// the frame pointer has none.
    pub open spec fn spec_bcf_idx(self) -> Option<usize> {
        if self == Reg::R10 {
            None
        } else {
            Some(self.spec_index() as usize)
        }
    }

    /// The row of the symbolic binding table that belongs to the register.
    pub fn bcf_idx(self) -> (r: Option<usize>)
        ensures
            r == self.spec_bcf_idx(),
            r matches Some(i) ==> i < 10,
    {
        if self == Reg::R10 {
            None
        } else {
            Some(self.index())
        }
    }
}

/// The right-hand side of a comparison.
#[derive(Clone, Copy, Debug, PartialEq, Eq, Structural)]
pub enum Operand {
    Imm(i64),
    Reg(Reg),
}

/// An instruction, with the operands that the exploration looks at.
#[derive(Clone, Copy, Debug, PartialEq, Eq, Structural)]
pub enum Instr {
    If { width: Width, left: Reg, op: CmpOp, right: Operand, target: usize },
    Jmp { target: usize },
    MayGoto { target: usize },
    Call { helper: u32 },
    CallRel { target: usize },
    Exit,
    Store { base: Reg, off: i16 },
    StoreRel { base: Reg, off: i16 },
    Load { base: Reg, off: i16 },
    LoadAcq { base: Reg, off: i16 },
    /// An instruction that neither jumps nor touches memory.
    Alu,
}

impl Instr {
    /// Whether the instruction belongs to the jump class.
    pub open spec fn spec_is_jmp_class(self) -> bool {
        self is If || self is Jmp || self is MayGoto || self is Call || self is CallRel
            || self is Exit
    }

    /// Whether the instruction belongs to the jump class.
    pub fn is_jmp_class(&self) -> (r: bool)
        ensures
            r == self.spec_is_jmp_class(),
    {
        matches!(
            self,
            Instr::If { .. } | Instr::Jmp { .. } | Instr::MayGoto { .. } | Instr::Call { .. }
                | Instr::CallRel { .. } | Instr::Exit
        )
    }
}

/// A program: its instructions, and the slots that hold the second half of a
/// wide load and must never be reached.
pub struct Program {
    pub instrs: Vec<Instr>,
    pub invalid_pcs: Vec<usize>,
}

impl Program {
    /// The instruction at `pc`, where there is one.
    pub open spec fn spec_fetch(&self, pc: usize) -> Option<Instr> {
        if pc < self.instrs@.len() {
            Some(self.instrs@[pc as int])
        } else {
            None
        }
    }

    /// The instruction at `pc`, where there is one.
    pub fn fetch(&self, pc: usize) -> (r: Option<Instr>)
        ensures
            r == self.spec_fetch(pc),
    {
        if pc < self.instrs.len() {
            Some(self.instrs[pc])
        } else {
            None
        }
    }

    /// Whether `pc` is the second half of a wide load.
    pub fn is_invalid_pc(&self, pc: usize) -> (r: bool)
        ensures
            r == self.invalid_pcs@.contains(pc),
    {
        let mut i: usize = 0;
        while i < self.invalid_pcs.len()
            invariant
                i <= self.invalid_pcs@.len(),
                forall|j: int| 0 <= j < i ==> self.invalid_pcs@[j] != pc,
            decreases self.invalid_pcs@.len() - i,
        {
            if self.invalid_pcs[i] == pc {
                return true;
            }
            i += 1;
        }
        false
    }
}

}
