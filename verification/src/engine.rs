//! The analyses that an exploration rests on.
//!
//! An engine answers questions about abstract values and control flow, and
//! executes single instructions. Nothing is taken for granted about its
//! answers: what the library promises holds for every engine.

use vstd::prelude::*;

use crate::ast::{CmpOp, Instr, Operand, Program, ProgramKind, Reg, Width};
use crate::cache::StateCache;
use crate::env::{Breadcrumb, Certificate, InsnAux, ProvedGoal, VerifierEnv};
use crate::machine::{NumericDomain, State};
use crate::symbolic::SymbolicState;

verus! {

/// Which registers a comparison of states looks at, and how closely.
pub struct SubsumptionQuery {
    /// The live registers of the innermost frame.
    pub live_regs: [bool; 11],
    /// The live registers of each frame at its call site, where it has one.
    pub frame_live_regs: Vec<Option<[bool; 11]>>,
    /// Whether the ranges of imprecise registers count too.
    pub force_exact: bool,
}

/// What control flow says of an arrival.
#[derive(Clone, Copy, Debug, PartialEq, Eq, Structural)]
pub struct LoopFacts {
    /// The arrival is at the head of a loop.
    pub at_loop_point: bool,
    /// Some condition leads out of the loop.
    pub conditional_exit: bool,
    pub arrived_via_back_edge: bool,
    /// The loop's body holds a forced checkpoint.
    pub body_has_force_checkpoint: bool,
    /// An iterator of the loop has not been widened yet.
    pub iter_pre_widening: bool,
}

/// A form in which the conditions of a path are put to the solver.
#[derive(Clone, Copy, Debug, PartialEq, Eq, Structural)]
pub enum GoalForm {
    /// Each operand by its own name.
    Rewrite,
    /// Operands by the names they were recorded with.
    NoRewrite,
    /// Constants folded by the ranges behind the branch.
    FoldLegacy,
    /// The conditions behind the last pass of the base.
    Traj,
    TrajFoldLegacy,
    TrajNoRewrite,
    /// The conditions on the registers that the last branch rests on, over so
    /// many computations.
    RegFiltered { hops: usize },
    RegFilteredNoRewrite { hops: usize },
}

/// A form of the goal, with the place where its conditions begin and the
/// instruction before it.
#[derive(Clone, Copy, Debug, PartialEq, Eq)]
pub struct Attempt {
    pub form: GoalForm,
    pub base_pc: Option<usize>,
    pub prev_pc: Option<usize>,
}

/// An access to a map's value.
#[derive(Clone, Copy, Debug, PartialEq, Eq)]
pub struct MapAccess {
    pub base: Reg,
    pub insn_off: i64,
    pub size: i64,
    pub map_limit: i64,
}

pub trait Engine {
    /// Checks how the program is divided into functions.
    fn check_subprogs(&self, prog: &Program) -> Result<(), String>;

    /// Checks that no chain of calls needs more stack than there is.
    fn check_stack_overflow(
        &self,
        prog: &Program,
        prog_kind: ProgramKind,
        private_stack: bool,
    ) -> Result<(), String>;

    /// Checks the control flow, and notes where arrivals are compared and where
    /// checkpoints are forced.
    fn check_cfg(&mut self, insn_aux: &mut Vec<InsnAux>, prog: &Program) -> Result<(), String>;

    /// Notes which registers are live before each instruction.
    fn compute_liveness(&mut self, insn_aux: &mut Vec<InsnAux>, prog: &Program);

    /// Finds the loops of the control flow.
    fn compute_scc(&mut self, prog: &Program);

    /// The hash of a program, by which a certificate names it.
    fn program_hash(&self, prog: &Program) -> String;

    /// Whether a certificate fits a program.
    fn validate_certificate(&self, cert: &Certificate, prog: &Program) -> bool;

    /// Gives a numeric abstraction the anchors for packet pointers.
    fn init_packet_anchors(&mut self, domain: NumericDomain) -> NumericDomain;

    /// Whether arrivals at `pc` are compared with cached states.
    fn is_prune_point(&self, env: &VerifierEnv, pc: usize) -> bool;

    /// What control flow says of an arrival.
    fn loop_facts(&self, env: &VerifierEnv, state: &State, prog: &Program) -> LoopFacts;

    /// Whether it is still open which parts of a cached state are read later.
    fn incomplete_read_marks(&self, env: &VerifierEnv, cached: &State) -> bool;

    /// Whether some iterator stands at different depths in two states.
    fn iter_depths_differ(&self, cached: &State, state: &State) -> bool;

    /// Whether two states hold the same values.
    fn exact_equal(&self, cached: &State, state: &State) -> bool;

    /// Whether a cached state holds every behaviour of another one.
    fn subsumed(&self, state: &State, cached: &State, query: &SubsumptionQuery) -> bool;

    /// Drops what is dead from a finished cached state.
    fn clean(&mut self, cache: &mut StateCache, id: u32);

    /// Marks in the ancestors of a state what a cached state needs precise.
    fn propagate_precision(
        &mut self,
        cache: &mut StateCache,
        history: &Vec<Breadcrumb>,
        state: &State,
        cached: &State,
    );

    /// Notes that a state closes a loop through a cached one.
    fn add_backedge(&mut self, cache: &mut StateCache, state: &State, id: u32, pc: usize);

    /// Executes an instruction: the states that follow, none where the path
    /// ends.
    fn transfer(&mut self, env: &mut VerifierEnv, state: State, instr: &Instr) -> Vec<State>;

    /// Tries to prove that the conditions of a replayed path contradict one
    /// another.
    fn prove_replayed_path(&self, table: &SymbolicState) -> Option<ProvedGoal>;

    /// Where the path on which the targets' values rest begins, seen from a
    /// step.
    fn suffix_base_pc(
        &self,
        env: &VerifierEnv,
        step: usize,
        parent: Option<u32>,
        targets: &Vec<Reg>,
    ) -> Option<usize>;

    /// Where that path begins, and the checkpoint there.
    fn suffix_base(
        &self,
        env: &VerifierEnv,
        step: usize,
        parent: Option<u32>,
        targets: &Vec<Reg>,
    ) -> Option<(usize, u32)>;

    /// The instruction from which a checkpoint was reached.
    fn prev_insn_pc(&self, env: &VerifierEnv, id: u32) -> Option<usize>;

    /// Tries to prove that a state cannot be reached.
    fn prove_unreachable(&self, state: &State, attempt: &Attempt) -> Option<ProvedGoal>;

    /// Tries to prove that an access stays within its map. A goal that is known
    /// is not proved again.
    fn prove_map_access(
        &self,
        state: &State,
        access: &MapAccess,
        size_reg: Option<Reg>,
        base_pc: Option<usize>,
        known: Option<&Vec<u64>>,
    ) -> Option<ProvedGoal>;

    /// Whether an operand of a conditional jump may be read. Fails the run
    /// where it may not.
    fn check_readable(
        &mut self,
        env: &mut VerifierEnv,
        state: &mut State,
        operand: &Operand,
        is_left: bool,
    ) -> bool;

    /// Narrows the operands of a conditional jump on both of its sides.
    fn apply_jmp_constraints(
        &self,
        taken: &mut State,
        passed: &mut State,
        left: Reg,
        op: CmpOp,
        width: Width,
        right: &Operand,
    );

    /// Narrows what is known of packets on both sides of a jump that compares two
    /// registers.
    fn refine_packet_bounds(
        &self,
        taken: &mut State,
        passed: &mut State,
        left: Reg,
        right: Reg,
        op: CmpOp,
    );

    /// Passes what a conditional jump shows of its left operand on to everything
    /// that is known to be equal to it, on both sides.
    fn propagate_scalar_links(&self, taken: &mut State, passed: &mut State, left: Reg);

    /// Which side of a conditional jump is followed, where that is known.
    fn condition_outcome(&self, state: &State, instr: &Instr) -> Option<bool>;

    /// Marks what a register's value rests on as precise.
    fn mark_chain_precision(
        &mut self,
        cache: &mut StateCache,
        history: &Vec<Breadcrumb>,
        step: usize,
        parent: Option<u32>,
        reg: Reg,
    );

    /// Narrows the types of registers on one side of a conditional jump.
    fn refine_branch(&self, state: &mut State, instr: &Instr, taken: bool);

    /// Whether the numeric abstraction of a state holds no values at all.
    fn is_inconsistent(&self, state: &State) -> bool;

    /// Demotes registers whose types differ from those of the cached states.
    fn resolve_type_conflicts(&mut self, env: &VerifierEnv, state: &mut State);

    /// The form in which a state is cached.
    fn prepare_for_cache(&mut self, env: &VerifierEnv, state: State) -> State;

    /// A step begins: stack writes are noted from now on.
    fn begin_step(&mut self, state: &mut State);

    /// The step has ended: the noted stack writes count.
    fn end_step(&mut self);

    /// A path has ended: its stack reads count, and its checkpoints have one
    /// unfinished path less.
    fn end_path(&mut self, cache: &mut StateCache, callsites: &Vec<usize>, parent: Option<u32>);

    /// Whether a successor of a step goes back to where the path has been.
    fn is_back_edge(&self, env: &VerifierEnv, step: usize, state: &State) -> bool;

    /// Checks a proof of a certificate; what it shows is named by its place in
    /// the engine's store.
    fn check_proof(&self, env: &VerifierEnv, prog: &Program, pc: usize, entry: u32) -> Option<u64>;

    /// Narrows a state by what the proofs of a certificate show.
    fn apply_refinements(&self, state: &mut State, verified: &Vec<u64>);

    /// The checkpoints between a state and the base of its proof: arrivals at
    /// them may need a proof of their own.
    fn parents_in_proof(&self, env: &VerifierEnv, state: &State, base: Option<u32>) -> Vec<u32>;
}

}
