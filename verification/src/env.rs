//! What a verification run knows of its program, and what it keeps while it
//! runs.

use vstd::prelude::*;

use crate::ast::{ContextKind, Instr, Program, ProgramKind, Reg};
use crate::cache::{StateCache, StateMetrics};
use crate::ctx_model::CtxTables;
use crate::machine::{EntryArg, State, VerificationError};
use crate::symbolic::BcfTerm;

verus! {

/// What the type information says of a structure field.
#[derive(Clone, Copy, Debug, PartialEq, Eq)]
pub enum BtfFieldKind {
    /// A pointer, to a named structure or to anything.
    Pointer { pointee: Option<&'static str> },
    Scalar,
    Other,
}

/// A structure field of which the type information knows.
#[derive(Clone, Copy, Debug)]
pub struct BtfField {
    pub struct_name: &'static str,
    pub offset: u32,
    pub kind: BtfFieldKind,
    /// Whether a pointer loaded from the field may be trusted.
    pub trusted_load: bool,
}

/// A field in a map's value that the kernel manages.
#[derive(Clone, Copy, Debug, PartialEq, Eq, Structural)]
pub enum SpecialFieldKind {
    SpinLock,
    ResSpinLock,
    Timer,
    ListHead,
    RbRoot,
    Other,
}

/// A map, with the managed fields of its value type where that type is known.
pub struct MapDef {
    pub name: String,
    pub special_fields: Option<Vec<SpecialFieldKind>>,
}

/// What a relocation refers to.
#[derive(Clone, Copy, Debug, PartialEq, Eq, Structural)]
pub enum RelocKind {
    MapPtr,
    MapValue,
    Other,
}

/// A relocation of the program.
#[derive(Clone, Copy, Debug, PartialEq, Eq, Structural)]
pub struct Reloc {
    pub kind: RelocKind,
    pub map_idx: usize,
}

/// The program's surroundings.
pub struct ExecContext {
    pub prog_kind: ProgramKind,
    /// The context structure that programs of this kind receive.
    pub context_kind: ContextKind,
    pub attach_flavor: Option<String>,
    pub attach_subtype: Option<String>,
    /// The arguments that the program unpacks from its context.
    pub entry_args: Option<Vec<EntryArg>>,
    /// The arguments of the function that the program takes the place of.
    pub freplace_arg_types: Option<Vec<EntryArg>>,
    pub btf_fields: Vec<BtfField>,
    /// Tracepoint arguments that may be null.
    pub maybe_null_args: Vec<(&'static str, u8)>,
    pub tables: CtxTables,
    pub map_defs: Vec<MapDef>,
    pub relocs: Vec<Reloc>,
    pub priv_stack_requested: bool,
    /// Set where every visit of a state is to be explored.
    pub test_state_freq: bool,
}

/// The numeric abstraction that a run works with.
#[derive(Clone, Copy, Debug, PartialEq, Eq, Structural)]
pub enum DomainMode {
    Zone,
    Interval,
}

/// Proofs that a certificate offers at a program counter; each is named by its
/// place in the certificate.
pub struct Annotation {
    pub pc: usize,
    pub entries: Vec<u32>,
}

/// Proofs that came with a program.
pub struct Certificate {
    pub program_hash: String,
    pub annotations: Vec<Annotation>,
}

/// How a run is to be done.
pub struct VerifierConfig {
    pub max_states_per_pc: usize,
    pub max_insn: usize,
    pub bcf_max_insn: usize,
    pub kernel_engine: bool,
    pub enable_private_stack: bool,
    pub domain_mode: DomainMode,
    pub bcf_enabled: bool,
    pub certificate_output: Option<String>,
    pub certificate_input: Option<String>,
}

/// What the passes over the program found out about an instruction.
#[derive(Clone, Copy, Debug)]
pub struct InsnAux {
    /// Every arrival becomes a checkpoint.
    pub force_checkpoint: bool,
    pub jmp_point: bool,
    pub live_regs: [bool; 11],
}

/// A step of the exploration.
pub struct Breadcrumb {
    pub pc: usize,
    pub instr: Instr,
    pub parent_idx: Option<usize>,
    pub num_frames: usize,
    /// The registers that a conditional jump found to be equal.
    pub linked: Vec<Reg>,
}

/// What a bundle entry shows.
#[derive(Clone, Copy, Debug, PartialEq, Eq, Structural)]
pub enum BundleKind {
    Refine,
    Unreachable,
}

/// A goal that was proved, with its proof.
pub struct ProvedGoal {
    /// The canonical hash of the goal.
    pub cond_hash: u64,
    pub goal_root: usize,
    pub exprs: Vec<BcfTerm>,
    pub proof_bytes: Vec<u8>,
}

/// An entry of the proof bundle.
pub struct RefineEntry {
    pub kind: BundleKind,
    pub goal: ProvedGoal,
}

/// How far a run has come, in all and since the last checkpoint.
#[derive(Clone, Copy, Debug, PartialEq, Eq, Structural)]
pub struct Counters {
    pub insn_processed: usize,
    pub jmps_processed: usize,
    pub prev_insn_processed: usize,
    pub prev_jmps_processed: usize,
}

/// What a run keeps.
pub struct VerifierEnv<'a> {
    pub ctx: &'a ExecContext,
    pub cache: StateCache,
    pub insn_aux: Vec<InsnAux>,
    pub counters: Counters,
    /// Whether the last arrival met an unfinished state.
    pub saw_active_state_at_check: bool,
    pub error: Option<VerificationError>,
    /// Set while a path is executed again.
    pub replay_mode: bool,
    pub bcf_enabled: bool,
    pub kernel_faithful_alu: bool,
    pub analyzing_exception_cb: bool,
    pub bcf_path_unreachable: bool,
    pub bcf_proofs: Vec<RefineEntry>,
    /// The register that holds the size of the access under check.
    pub bcf_size_reg: Option<Reg>,
    /// The step under way.
    pub current_step_idx: Option<usize>,
    pub history: Vec<Breadcrumb>,
    /// Where iterators advance.
    pub iter_pcs: Vec<usize>,
    pub certificate: Option<Certificate>,
}

/// What is known of an instruction before any pass ran.
pub open spec fn blank_aux() -> InsnAux {
    InsnAux {
        force_checkpoint: false,
        jmp_point: false,
        live_regs: [false, false, false, false, false, false, false, false, false, false, false],
    }
}

/// Whether nothing was explored in a run yet and nothing is known of its
/// instructions.
pub open spec fn starts_blank(
    env: VerifierEnv,
    ctx: ExecContext,
    prog: Program,
    certificate: Option<Certificate>,
    kernel_faithful_alu: bool,
    bcf_enabled: bool,
) -> bool {
    &&& *env.ctx == ctx
    &&& env.cache@.explored@ == Map::<usize, Vec<State>>::empty()
    &&& env.cache@.metrics@ == Map::<usize, Vec<StateMetrics>>::empty()
    &&& env.cache@.loc_by_id@ == Map::<u32, (usize, usize)>::empty()
    &&& env.cache@.retired@ == Map::<u32, (usize, State)>::empty()
    &&& env.cache@.next_id == 0
    &&& env.cache@.evictions == 0
    &&& env.insn_aux@ == Seq::new(prog.instrs@.len(), |i: int| blank_aux())
    &&& env.counters == (Counters {
        insn_processed: 0,
        jmps_processed: 0,
        prev_insn_processed: 0,
        prev_jmps_processed: 0,
    })
    &&& !env.saw_active_state_at_check
    &&& env.error is None
    &&& !env.replay_mode
    &&& env.bcf_enabled == bcf_enabled
    &&& env.kernel_faithful_alu == kernel_faithful_alu
    &&& !env.analyzing_exception_cb
    &&& !env.bcf_path_unreachable
    &&& env.bcf_proofs@.len() == 0
    &&& env.bcf_size_reg is None
    &&& env.current_step_idx is None
    &&& env.history@.len() == 0
    &&& env.iter_pcs@.len() == 0
    &&& env.certificate == certificate
}

impl<'a> VerifierEnv<'a> {
    /// Whether every arrival at `pc` becomes a checkpoint.
    pub open spec fn spec_force_checkpoint(&self, pc: usize) -> bool {
        pc < self.insn_aux@.len() && self.insn_aux@[pc as int].force_checkpoint
    }

    /// Whether every arrival at `pc` becomes a checkpoint.
    pub fn force_checkpoint(&self, pc: usize) -> (r: bool)
        ensures
            r == self.spec_force_checkpoint(pc),
    {
        pc < self.insn_aux.len() && self.insn_aux[pc].force_checkpoint
    }

    /// Whether iterators advance at `pc`.
    pub fn is_iter_pc(&self, pc: usize) -> (r: bool)
        ensures
            r == self.iter_pcs@.contains(pc),
    {
        let mut i: usize = 0;
        while i < self.iter_pcs.len()
            invariant
                i <= self.iter_pcs@.len(),
                forall|j: int| 0 <= j < i ==> self.iter_pcs@[j] != pc,
            decreases self.iter_pcs@.len() - i,
        {
            if self.iter_pcs[i] == pc {
                return true;
            }
            i += 1;
        }
        false
    }

    /// What a run starts with: nothing explored, nothing known of the
    /// instructions.
    pub fn new(
        ctx: &'a ExecContext,
        prog: &Program,
        certificate: Option<Certificate>,
        kernel_faithful_alu: bool,
        bcf_enabled: bool,
    ) -> (r: VerifierEnv<'a>)
        ensures
            starts_blank(r, *ctx, *prog, certificate, kernel_faithful_alu, bcf_enabled),
    {
        let blank = InsnAux {
            force_checkpoint: false,
            jmp_point: false,
            live_regs: [
                false,
                false,
                false,
                false,
                false,
                false,
                false,
                false,
                false,
                false,
                false,
            ],
        };
        assert(blank == blank_aux()) by {
            assert(blank.live_regs@ =~= blank_aux().live_regs@);
        }
        let mut insn_aux: Vec<InsnAux> = Vec::new();
        let n: usize = prog.instrs.len();
        let mut i: usize = 0;
        while i < n
            invariant
                i <= n,
                insn_aux@.len() == i,
                blank == blank_aux(),
                forall|j: int| 0 <= j < i ==> #[trigger] insn_aux@[j] == blank_aux(),
            decreases n - i,
        {
            insn_aux.push(blank);
            i += 1;
        }
        assert(insn_aux@ =~= Seq::new(prog.instrs@.len(), |i: int| blank_aux()));
        VerifierEnv {
            ctx,
            cache: StateCache::new(),
            insn_aux,
            counters: Counters {
                insn_processed: 0,
                jmps_processed: 0,
                prev_insn_processed: 0,
                prev_jmps_processed: 0,
            },
            saw_active_state_at_check: false,
            error: None,
            replay_mode: false,
            bcf_enabled,
            kernel_faithful_alu,
            analyzing_exception_cb: false,
            bcf_path_unreachable: false,
            bcf_proofs: Vec::new(),
            bcf_size_reg: None,
            current_step_idx: None,
            history: Vec::new(),
            iter_pcs: Vec::new(),
            certificate,
        }
    }
}

}
