//! Abstract machine states.

use vstd::prelude::*;

use crate::ast::{ProgramKind, Reg};
use crate::symbolic::{RegBounds, SymbolicState, SymbolicView};
use crate::vectors::copy_vec;

verus! {

/// Type tags on a kernel pointer.
#[derive(Clone, Copy, Debug, PartialEq, Eq, Structural)]
pub struct PtrFlags {
    pub trusted: bool,
    pub user: bool,
    pub percpu: bool,
}

impl PtrFlags {
    /// No tag.
    pub open spec fn spec_empty() -> PtrFlags {
        PtrFlags { trusted: false, user: false, percpu: false }
    }

    /// No tag.
    pub fn empty() -> (r: PtrFlags)
        ensures
            r == PtrFlags::spec_empty(),
    {
        PtrFlags { trusted: false, user: false, percpu: false }
    }
}

/// What an entry argument holds when the program starts.
#[derive(Clone, Copy, Debug, PartialEq, Eq)]
pub enum EntryArg {
    Scalar,
    TrustedPtrBtfId { struct_name: &'static str, nullable: bool },
    BoundedScalar { lo: i64, hi: i64 },
    /// A task whose reference is held on entry and must be released.
    TrustedRefcountedTask { ref_id: u32 },
}

/// What a register holds.
#[derive(Clone, Copy, Debug, PartialEq, Eq)]
pub enum RegType {
    NotInit,
    ScalarValue,
    PtrToCtx,
    PtrToStack { frame_level: usize },
    PtrToBtfId { struct_name: &'static str, flags: PtrFlags, ref_id: Option<u32> },
    PtrToTask { ref_id: Option<u32> },
    /// Any other pointer.
    OtherPtr,
}

/// The offset range of a pointer.
#[derive(Clone, Copy, Debug, PartialEq, Eq, Structural)]
pub struct OffsetRange {
    pub min: i64,
    pub max: i64,
}

/// A register: its type and what is known of its value.
#[derive(Clone, Copy, Debug, PartialEq, Eq)]
pub struct RegInfo {
    pub ty: RegType,
    pub bounds: RegBounds,
    /// The pointer's offset range, for pointers that carry one.
    pub ptr_offset: Option<OffsetRange>,
    /// The value, where it is a single one.
    pub fixed: Option<i64>,
    /// The distance to the frame pointer, where it is a single one.
    pub frame_distance: Option<i64>,
    /// The class of scalars that are known to be equal.
    pub scalar_id: Option<u32>,
    /// Whether the value matters for safety.
    pub precise: bool,
}

/// What a stack slot was last written with.
#[derive(Clone, Copy, Debug, PartialEq, Eq, Structural)]
pub enum StackSlotKind {
    Spill,
    Misc,
}

/// A stack slot.
#[derive(Clone, Copy, Debug, PartialEq, Eq)]
pub struct StackSlot {
    pub off: i16,
    pub kind: StackSlotKind,
    pub reg_type: RegType,
    pub scalar_id: Option<u32>,
    pub precise: bool,
    /// The symbolic term of the spilled value.
    pub bcf_expr: Option<usize>,
}

/// A call frame.
pub struct Frame {
    /// Where the call returns to; zero for the main frame.
    pub return_pc: usize,
    pub active_iterators: bool,
    pub slots: Vec<StackSlot>,
}

/// What a frame holds.
#[verifier::ext_equal]
pub struct FrameView {
    pub return_pc: usize,
    pub active_iterators: bool,
    pub slots: Seq<StackSlot>,
}

impl View for Frame {
    type V = FrameView;

    open spec fn view(&self) -> FrameView {
        FrameView {
            return_pc: self.return_pc,
            active_iterators: self.active_iterators,
            slots: self.slots@,
        }
    }
}

/// A difference-bound matrix, named by its place in the domain's store.
#[derive(Clone, Copy, Debug, PartialEq, Eq, Structural)]
pub struct Dbm {
    pub matrix: u64,
    pub provenance: bool,
}

impl Dbm {
    /// The matrix without constraints.
    pub open spec fn spec_new() -> Dbm {
        Dbm { matrix: 0, provenance: false }
    }

    /// The matrix without constraints.
    pub fn new() -> (r: Dbm)
        ensures
            r == Dbm::spec_new(),
    {
        Dbm { matrix: 0, provenance: false }
    }
}

/// The numeric abstraction of a state.
#[derive(Clone, Copy, Debug, PartialEq, Eq, Structural)]
pub enum NumericDomain {
    Zone(Dbm),
    /// Intervals, named by their place in the domain's store.
    Interval(u64),
}

/// An abstract machine state on its way along one path.
pub struct State {
    pub pc: usize,
    pub domain: NumericDomain,
    pub regs: [RegInfo; 11],
    pub frames: Vec<Frame>,
    /// References that must be released before the program exits.
    pub active_refs: Vec<u32>,
    pub rcu_depth: u32,
    pub implicit_rcu_at_entry: bool,
    pub bcf: Option<SymbolicState>,
    /// The step that produced the state.
    pub history_idx: Option<usize>,
    /// The checkpoint that the state descends from.
    pub parent_cache_id: Option<u32>,
    /// The checkpoint that the state is, once it is cached.
    pub cache_id: Option<u32>,
    /// Set where a later arrival must not be pruned against this state.
    pub children_unsafe: bool,
    pub cleaned: bool,
    /// Unfinished paths below the checkpoint.
    pub branches: u32,
    pub dfs_paths: u32,
    pub dfs_depth: u32,
    pub may_goto_depth: u32,
    /// Branch decisions since the last checkpoint.
    pub jmp_history_cnt: u32,
    pub path_insn_count: usize,
    pub path_jmp_count: usize,
    pub prev_insn_at_cache: usize,
    pub prev_jmp_at_cache: usize,
    pub first_insn_idx: usize,
    pub last_insn_idx: usize,
}

/// What a state holds.
#[verifier::ext_equal]
pub struct StateView {
    pub pc: usize,
    pub domain: NumericDomain,
    pub regs: Seq<RegInfo>,
    pub frames: Seq<FrameView>,
    pub active_refs: Seq<u32>,
    pub rcu_depth: u32,
    pub implicit_rcu_at_entry: bool,
    pub bcf: Option<SymbolicView>,
    pub history_idx: Option<usize>,
    pub parent_cache_id: Option<u32>,
    pub cache_id: Option<u32>,
    pub children_unsafe: bool,
    pub cleaned: bool,
    pub branches: u32,
    pub dfs_paths: u32,
    pub dfs_depth: u32,
    pub may_goto_depth: u32,
    pub jmp_history_cnt: u32,
    pub path_insn_count: usize,
    pub path_jmp_count: usize,
    pub prev_insn_at_cache: usize,
    pub prev_jmp_at_cache: usize,
    pub first_insn_idx: usize,
    pub last_insn_idx: usize,
}

/// The frames' contents.
pub open spec fn frame_views(frames: Seq<Frame>) -> Seq<FrameView> {
    Seq::new(frames.len(), |i: int| frames[i]@)
}

/// The contents of an optional symbolic table.
pub open spec fn bcf_view(bcf: Option<SymbolicState>) -> Option<SymbolicView> {
    match bcf {
        Some(b) => Some(b@),
        None => None,
    }
}

impl View for State {
    type V = StateView;

    open spec fn view(&self) -> StateView {
        StateView {
            pc: self.pc,
            domain: self.domain,
            regs: self.regs@,
            frames: frame_views(self.frames@),
            active_refs: self.active_refs@,
            rcu_depth: self.rcu_depth,
            implicit_rcu_at_entry: self.implicit_rcu_at_entry,
            bcf: bcf_view(self.bcf),
            history_idx: self.history_idx,
            parent_cache_id: self.parent_cache_id,
            cache_id: self.cache_id,
            children_unsafe: self.children_unsafe,
            cleaned: self.cleaned,
            branches: self.branches,
            dfs_paths: self.dfs_paths,
            dfs_depth: self.dfs_depth,
            may_goto_depth: self.may_goto_depth,
            jmp_history_cnt: self.jmp_history_cnt,
            path_insn_count: self.path_insn_count,
            path_jmp_count: self.path_jmp_count,
            prev_insn_at_cache: self.prev_insn_at_cache,
            prev_jmp_at_cache: self.prev_jmp_at_cache,
            first_insn_idx: self.first_insn_idx,
            last_insn_idx: self.last_insn_idx,
        }
    }
}

/// A register of which nothing is known, with the given type.
pub open spec fn unknown_reg(ty: RegType) -> RegInfo {
    RegInfo {
        ty,
        bounds: RegBounds {
            const_val: None,
            umin: 0,
            umax: u64::MAX,
            smin: i64::MIN,
            smax: i64::MAX,
        },
        ptr_offset: None,
        fixed: None,
        frame_distance: None,
        scalar_id: None,
        precise: false,
    }
}

/// A register of which nothing is known, with the given type.
pub fn make_unknown_reg(ty: RegType) -> (r: RegInfo)
    ensures
        r == unknown_reg(ty),
{
    RegInfo {
        ty,
        bounds: RegBounds {
            const_val: None,
            umin: 0,
            umax: u64::MAX,
            smin: i64::MIN,
            smax: i64::MAX,
        },
        ptr_offset: None,
        fixed: None,
        frame_distance: None,
        scalar_id: None,
        precise: false,
    }
}

impl Frame {
    /// A frame with the same contents.
    pub fn duplicate(&self) -> (r: Frame)
        ensures
            r@ == self@,
    {
        Frame {
            return_pc: self.return_pc,
            active_iterators: self.active_iterators,
            slots: copy_vec(&self.slots),
        }
    }
}

impl StateView {
    /// The state a path starts in: one frame, no register set.
    pub open spec fn initial(domain: NumericDomain, pc: usize) -> StateView {
        StateView {
            pc,
            domain,
            regs: Seq::new(11, |i: int| unknown_reg(RegType::NotInit)),
            frames: seq![
                FrameView { return_pc: 0, active_iterators: false, slots: Seq::empty() },
            ],
            active_refs: Seq::empty(),
            rcu_depth: 0,
            implicit_rcu_at_entry: false,
            bcf: None,
            history_idx: None,
            parent_cache_id: None,
            cache_id: None,
            children_unsafe: false,
            cleaned: false,
            branches: 0,
            dfs_paths: 0,
            dfs_depth: 0,
            may_goto_depth: 0,
            jmp_history_cnt: 0,
            path_insn_count: 0,
            path_jmp_count: 0,
            prev_insn_at_cache: 0,
            prev_jmp_at_cache: 0,
            first_insn_idx: 0,
            last_insn_idx: 0,
        }
    }

    /// The state with the type of one register replaced; what else is known of
    /// the register stays.
    pub open spec fn with_type(self, r: Reg, ty: RegType) -> StateView {
        StateView {
            regs: self.regs.update(
                r.spec_index(),
                RegInfo { ty, ..self.regs[r.spec_index()] },
            ),
            ..self
        }
    }
}

impl State {
    /// The state a path starts in.
    pub fn new(domain: NumericDomain, pc: usize) -> (r: State)
        ensures
            r@ == StateView::initial(domain, pc),
    {
        let x = make_unknown_reg(RegType::NotInit);
        let main = Frame { return_pc: 0, active_iterators: false, slots: Vec::new() };
        let mut frames: Vec<Frame> = Vec::new();
        frames.push(main);
        let r = State {
            pc,
            domain,
            regs: [x, x, x, x, x, x, x, x, x, x, x],
            frames,
            active_refs: Vec::new(),
            rcu_depth: 0,
            implicit_rcu_at_entry: false,
            bcf: None,
            history_idx: None,
            parent_cache_id: None,
            cache_id: None,
            children_unsafe: false,
            cleaned: false,
            branches: 0,
            dfs_paths: 0,
            dfs_depth: 0,
            may_goto_depth: 0,
            jmp_history_cnt: 0,
            path_insn_count: 0,
            path_jmp_count: 0,
            prev_insn_at_cache: 0,
            prev_jmp_at_cache: 0,
            first_insn_idx: 0,
            last_insn_idx: 0,
        };
        assert(r@.regs =~= StateView::initial(domain, pc).regs);
        assert(r@.frames =~= StateView::initial(domain, pc).frames);
        r
    }

    /// A state with the same contents.
    pub fn duplicate(&self) -> (r: State)
        ensures
            r@ == self@,
    {
        let mut frames: Vec<Frame> = Vec::new();
        let mut i: usize = 0;
        while i < self.frames.len()
            invariant
                i <= self.frames@.len(),
                frame_views(frames@) == frame_views(self.frames@).take(i as int),
            decreases self.frames@.len() - i,
        {
            let f = self.frames[i].duplicate();
            proof {
                assert(frame_views(frames@.push(f)) =~= frame_views(frames@).push(f@));
                assert(frame_views(self.frames@).take(i + 1) =~= frame_views(self.frames@).take(
                    i as int,
                ).push(f@));
            }
            frames.push(f);
            i += 1;
        }
        assert(frame_views(frames@) =~= frame_views(self.frames@));
        let bcf = match &self.bcf {
            Some(b) => Some(b.duplicate()),
            None => None,
        };
        State {
            pc: self.pc,
            domain: self.domain,
            regs: self.regs,
            frames,
            active_refs: copy_vec(&self.active_refs),
            rcu_depth: self.rcu_depth,
            implicit_rcu_at_entry: self.implicit_rcu_at_entry,
            bcf,
            history_idx: self.history_idx,
            parent_cache_id: self.parent_cache_id,
            cache_id: self.cache_id,
            children_unsafe: self.children_unsafe,
            cleaned: self.cleaned,
            branches: self.branches,
            dfs_paths: self.dfs_paths,
            dfs_depth: self.dfs_depth,
            may_goto_depth: self.may_goto_depth,
            jmp_history_cnt: self.jmp_history_cnt,
            path_insn_count: self.path_insn_count,
            path_jmp_count: self.path_jmp_count,
            prev_insn_at_cache: self.prev_insn_at_cache,
            prev_jmp_at_cache: self.prev_jmp_at_cache,
            first_insn_idx: self.first_insn_idx,
            last_insn_idx: self.last_insn_idx,
        }
    }

    /// What is known of a register.
    pub fn reg(&self, r: Reg) -> (i: RegInfo)
        ensures
            i == self@.regs[r.spec_index()],
    {
        self.regs[r.index()]
    }

    /// Replaces the type of a register.
    pub fn set_type(&mut self, r: Reg, ty: RegType)
        ensures
            final(self)@ == old(self)@.with_type(r, ty),
    {
        let i: usize = r.index();
        let mut info = self.regs[i];
        info.ty = ty;
        self.regs[i] = info;
        assert(self@ =~= old(self)@.with_type(r, ty));
    }
}

/// Why a program is rejected.
#[derive(Debug, PartialEq, Eq)]
pub enum VerificationError {
    InfiniteLoopDetected { pc: usize },
    InvalidBPFLoadImmInsn { pc: usize },
    ComplexityLimitExceeded { limit: usize },
    SubprogError { e: String },
    CfgError(String),
    MapProgIncompat { map_name: String, field: &'static str, kind: ProgramKind },
    /// An instruction that is not allowed in the state that reached it.
    Instruction { pc: usize, code: u32 },
}

}
