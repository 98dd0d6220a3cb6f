use std::cell::RefCell;

use alivio::analysis::{
    analyze_exception_cb, analyze_from, analyze_program, analyze_program_full,
};
use alivio::ast::{CmpOp, ContextKind, Instr, Operand, Program, ProgramKind, Reg, Width};
use alivio::branch::transfer_if;
use alivio::cache::{Patch, StateCache};
use alivio::ctx_model::CtxTables;
use alivio::engine::{Attempt, Engine, GoalForm, LoopFacts, MapAccess, SubsumptionQuery};
use alivio::env::{
    Annotation, Breadcrumb, BundleKind, Certificate, DomainMode, ExecContext, InsnAux, MapDef,
    ProvedGoal, Reloc, RelocKind, SpecialFieldKind, VerifierConfig, VerifierEnv,
};
use alivio::machine::{
    Dbm, NumericDomain, RegType, State, VerificationError,
};
use alivio::pruning::should_prune;
use alivio::refine_map::try_bcf_refine_map;
use alivio::replay::{replay_to_reject, try_prove_unreachable_via_replay, ReplayShape};
use alivio::symbolic::SymbolicState;
use alivio::unreachable::try_emit_path_unreachable_entry;
use alivio::worklist::{receive, run_worklist, Arrival};

/// An engine whose answers are set by the test. The index of the interval domain
/// is the one value that a state holds.
struct Mock {
    log: RefCell<Vec<String>>,
    subprogs: Result<(), String>,
    stack: Result<(), String>,
    cfg: Result<(), String>,
    hash: String,
    fits: bool,
    prune_points: Vec<usize>,
    loop_points: Vec<usize>,
    conditional_exit: bool,
    open_marks: bool,
    fail_at: Option<usize>,
    readable: bool,
    outcome: Option<bool>,
    empty_at: Vec<usize>,
    prove_replays: bool,
    forms: Vec<GoalForm>,
    prove_direct: bool,
    prove_replayed_access: bool,
    base: Option<(usize, u32)>,
    parents: Vec<u32>,
    force_at: Option<usize>,
}

fn mock() -> Mock {
    Mock {
        log: RefCell::new(vec![]),
        subprogs: Ok(()),
        stack: Ok(()),
        cfg: Ok(()),
        hash: String::from("h"),
        fits: true,
        prune_points: vec![],
        loop_points: vec![],
        conditional_exit: true,
        open_marks: false,
        fail_at: None,
        readable: true,
        outcome: None,
        empty_at: vec![],
        prove_replays: false,
        forms: vec![],
        prove_direct: false,
        prove_replayed_access: false,
        base: None,
        parents: vec![],
        force_at: None,
    }
}

impl Mock {
    fn note(&self, text: String) {
        self.log.borrow_mut().push(text);
    }

    fn noted(&self, prefix: &str) -> Vec<String> {
        self.log.borrow().iter().filter(|t| t.starts_with(prefix)).cloned().collect()
    }
}

fn goal(hash: u64) -> ProvedGoal {
    ProvedGoal { cond_hash: hash, goal_root: 0, exprs: vec![], proof_bytes: vec![] }
}

fn form_hash(form: GoalForm) -> u64 {
    match form {
        GoalForm::Rewrite => 1,
        GoalForm::NoRewrite => 2,
        GoalForm::FoldLegacy => 3,
        GoalForm::Traj => 4,
        GoalForm::TrajFoldLegacy => 5,
        GoalForm::TrajNoRewrite => 6,
        GoalForm::RegFiltered { hops } => 10 + hops as u64,
        GoalForm::RegFilteredNoRewrite { hops } => 20 + hops as u64,
    }
}

impl Engine for Mock {
    fn check_subprogs(&self, _: &Program) -> Result<(), String> {
        self.subprogs.clone()
    }

    fn check_stack_overflow(&self, _: &Program, _: ProgramKind, private: bool) -> Result<(), String> {
        self.note(format!("stack {}", private));
        self.stack.clone()
    }

    fn check_cfg(&mut self, aux: &mut Vec<InsnAux>, _: &Program) -> Result<(), String> {
        if let Some(pc) = self.force_at {
            aux[pc].force_checkpoint = true;
        }
        self.cfg.clone()
    }

    fn compute_liveness(&mut self, _: &mut Vec<InsnAux>, _: &Program) {
        self.note(String::from("liveness"));
    }

    fn compute_scc(&mut self, _: &Program) {
        self.note(String::from("scc"));
    }

    fn program_hash(&self, _: &Program) -> String {
        self.hash.clone()
    }

    fn validate_certificate(&self, _: &Certificate, _: &Program) -> bool {
        self.fits
    }

    fn init_packet_anchors(&mut self, domain: NumericDomain) -> NumericDomain {
        self.note(format!("anchors {:?}", domain));
        domain
    }

    fn is_prune_point(&self, _: &VerifierEnv, pc: usize) -> bool {
        self.prune_points.contains(&pc)
    }

    fn loop_facts(&self, _: &VerifierEnv, state: &State, _: &Program) -> LoopFacts {
        LoopFacts {
            at_loop_point: self.loop_points.contains(&state.pc),
            conditional_exit: self.conditional_exit,
            arrived_via_back_edge: false,
            body_has_force_checkpoint: false,
            iter_pre_widening: false,
        }
    }

    fn incomplete_read_marks(&self, _: &VerifierEnv, _: &State) -> bool {
        self.open_marks
    }

    fn iter_depths_differ(&self, _: &State, _: &State) -> bool {
        false
    }

    fn exact_equal(&self, cached: &State, state: &State) -> bool {
        cached.domain == state.domain
    }

    fn subsumed(&self, state: &State, cached: &State, query: &SubsumptionQuery) -> bool {
        self.note(format!("subsumed {:?} exact={}", cached.cache_id, query.force_exact));
        self.note(format!("asked precise={}", state.regs.iter().any(|r| r.precise)));
        state.domain == cached.domain
    }

    fn clean(&mut self, cache: &mut StateCache, id: u32) {
        self.note(format!("clean {}", id));
        cache.patch(id, Patch { children_unsafe: None, cleaned: Some(true), branches: None, dfs_paths: None });
    }

    fn propagate_precision(&mut self, _: &mut StateCache, _: &Vec<Breadcrumb>, _: &State, cached: &State) {
        self.note(format!("precision {:?}", cached.cache_id));
    }

    fn add_backedge(&mut self, _: &mut StateCache, _: &State, id: u32, pc: usize) {
        self.note(format!("backedge {} {}", id, pc));
    }

    fn transfer(&mut self, env: &mut VerifierEnv, state: State, instr: &Instr) -> Vec<State> {
        self.note(format!("transfer {}", state.pc));
        if self.fail_at == Some(state.pc) {
            env.error = Some(VerificationError::Instruction { pc: state.pc, code: 7 });
            return vec![];
        }
        // Counters are not the engine's to change.
        env.counters.insn_processed = 0;
        match *instr {
            Instr::If { .. } => transfer_if(self, env, state, instr),
            Instr::Jmp { target } => {
                let mut s = state;
                s.pc = target;
                vec![s]
            }
            Instr::Exit => vec![],
            _ => {
                let mut s = state;
                s.pc += 1;
                vec![s]
            }
        }
    }

    fn prove_replayed_path(&self, table: &SymbolicState) -> Option<ProvedGoal> {
        self.note(format!("replayed conds={}", table.conds.len()));
        if self.prove_replays {
            Some(goal(100 + table.conds.len() as u64))
        } else {
            None
        }
    }

    fn suffix_base_pc(&self, _: &VerifierEnv, step: usize, _: Option<u32>, targets: &Vec<Reg>) -> Option<usize> {
        self.note(format!("base_pc step={} targets={}", step, targets.len()));
        self.base.map(|b| b.0)
    }

    fn suffix_base(&self, _: &VerifierEnv, _: usize, _: Option<u32>, _: &Vec<Reg>) -> Option<(usize, u32)> {
        self.base
    }

    fn prev_insn_pc(&self, _: &VerifierEnv, id: u32) -> Option<usize> {
        Some(id as usize + 1000)
    }

    fn prove_unreachable(&self, _: &State, attempt: &Attempt) -> Option<ProvedGoal> {
        self.note(format!("prove {:?} base={:?} prev={:?}", attempt.form, attempt.base_pc, attempt.prev_pc));
        if self.forms.contains(&attempt.form) {
            Some(goal(form_hash(attempt.form)))
        } else {
            None
        }
    }

    fn prove_map_access(
        &self,
        state: &State,
        _: &MapAccess,
        size_reg: Option<Reg>,
        base_pc: Option<usize>,
        known: Option<&Vec<u64>>,
    ) -> Option<ProvedGoal> {
        match known {
            None => {
                self.note(format!("direct size={:?} base={:?}", size_reg, base_pc));
                if self.prove_direct {
                    Some(goal(50))
                } else {
                    None
                }
            }
            Some(hashes) => {
                let conds = state.bcf.as_ref().map(|b| b.conds.len()).unwrap_or(99);
                self.note(format!("replayed access conds={} base={:?}", conds, base_pc));
                let hash = 60 + conds as u64;
                if self.prove_replayed_access && !hashes.contains(&hash) {
                    Some(goal(hash))
                } else {
                    None
                }
            }
        }
    }

    fn check_readable(&mut self, _: &mut VerifierEnv, _: &mut State, operand: &Operand, is_left: bool) -> bool {
        self.note(format!("read {:?} {}", operand, is_left));
        self.readable
    }

    fn apply_jmp_constraints(
        &self,
        taken: &mut State,
        passed: &mut State,
        left: Reg,
        op: CmpOp,
        width: Width,
        right: &Operand,
    ) {
        self.note(format!("narrow {} {} {:?} {:?} {:?} {:?}", taken.pc, passed.pc, left, op, width, right));
    }

    fn refine_packet_bounds(&self, _: &mut State, _: &mut State, left: Reg, right: Reg, op: CmpOp) {
        self.note(format!("narrow packets {:?} {:?} {:?}", left, right, op));
    }

    fn propagate_scalar_links(&self, _: &mut State, _: &mut State, left: Reg) {
        self.note(format!("narrow links {:?}", left));
    }

    fn condition_outcome(&self, _: &State, _: &Instr) -> Option<bool> {
        self.outcome
    }

    fn mark_chain_precision(
        &mut self,
        _: &mut StateCache,
        _: &Vec<Breadcrumb>,
        step: usize,
        _: Option<u32>,
        reg: Reg,
    ) {
        self.note(format!("mark {} {:?}", step, reg));
    }

    fn refine_branch(&self, _: &mut State, _: &Instr, _: bool) {}

    fn is_inconsistent(&self, state: &State) -> bool {
        self.empty_at.contains(&state.pc)
    }

    fn resolve_type_conflicts(&mut self, _: &VerifierEnv, state: &mut State) {
        self.note(format!("adapt {}", state.pc));
    }

    fn prepare_for_cache(&mut self, _: &VerifierEnv, state: State) -> State {
        state
    }

    fn begin_step(&mut self, _: &mut State) {}

    fn end_step(&mut self) {}

    fn end_path(&mut self, cache: &mut StateCache, callsites: &Vec<usize>, parent: Option<u32>) {
        self.note(format!("end {:?} {:?}", callsites, parent));
        let mut cur = parent;
        while let Some(id) = cur {
            let (branches, above) = match cache.data().state_by_cache_id(id) {
                Some((_, s)) => (s.branches, s.parent_cache_id),
                None => return,
            };
            let left = branches.saturating_sub(1);
            cache.patch(id, Patch { children_unsafe: None, cleaned: None, branches: Some(left), dfs_paths: None });
            if left > 0 {
                return;
            }
            cur = above;
        }
    }

    fn is_back_edge(&self, _: &VerifierEnv, _: usize, _: &State) -> bool {
        false
    }

    fn check_proof(&self, _: &VerifierEnv, _: &Program, pc: usize, entry: u32) -> Option<u64> {
        self.note(format!("check {} {}", pc, entry));
        if entry % 2 == 0 {
            Some(entry as u64 * 10)
        } else {
            None
        }
    }

    fn apply_refinements(&self, state: &mut State, verified: &Vec<u64>) {
        self.note(format!("refine {} {:?}", state.pc, verified));
    }

    fn parents_in_proof(&self, _: &VerifierEnv, _: &State, base: Option<u32>) -> Vec<u32> {
        self.note(format!("parents {:?}", base));
        self.parents.clone()
    }
}

fn tables() -> CtxTables {
    CtxTables {
        sk_buff: vec![],
        sk_buff_extended: vec![],
        flow_dissector_extended: vec![],
        xdp_md: vec![],
        xdp_md_devmap: vec![],
        sock_addr: vec![],
        sockopt: vec![],
        sk_lookup: vec![],
        sk_reuseport: vec![],
        sock_ops: vec![],
        sock: vec![],
        sk_msg_md: vec![],
        pt_regs: vec![],
        trace_iter_task: vec![],
        sk_buff_cb: (0, 0),
        sock_addr_user_ip6: (0, 0),
        sock_addr_msg_src_ip6: (0, 0),
    }
}

fn context() -> ExecContext {
    ExecContext {
        prog_kind: ProgramKind::Xdp,
        context_kind: ContextKind::XdpMd,
        attach_flavor: None,
        attach_subtype: None,
        entry_args: None,
        freplace_arg_types: None,
        btf_fields: vec![],
        maybe_null_args: vec![],
        tables: tables(),
        map_defs: vec![],
        relocs: vec![],
        priv_stack_requested: false,
        test_state_freq: false,
    }
}

fn config() -> VerifierConfig {
    VerifierConfig {
        max_states_per_pc: 0,
        max_insn: 1000,
        bcf_max_insn: 2000,
        kernel_engine: false,
        enable_private_stack: true,
        domain_mode: DomainMode::Interval,
        bcf_enabled: false,
        certificate_output: None,
        certificate_input: None,
    }
}

fn program(instrs: Vec<Instr>) -> Program {
    Program { instrs, invalid_pcs: vec![] }
}

fn jump_if(target: usize) -> Instr {
    Instr::If { width: Width::W64, left: Reg::R1, op: CmpOp::Eq, right: Operand::Imm(0), target }
}

fn diamond() -> Program {
    program(vec![jump_if(2), Instr::Alu, Instr::Alu, Instr::Exit])
}

#[test]
fn a_straight_line_is_explored_once() {
    let mut m = mock();
    let ctx = context();
    let r = analyze_program_full(&mut m, &ctx, &program(vec![Instr::Alu, Instr::Exit]), Dbm::new(), &config(), None);
    assert!(r.error.is_none());
    assert_eq!(m.noted("transfer"), vec!["transfer 0", "transfer 1"]);
    assert_eq!((r.stats.insn_processed, r.stats.pruned, r.stats.evictions), (2, 0, 0));
    assert_eq!(r.dbms.len(), 2);
    assert_eq!(r.explored_states[&1].len(), 1);
    assert_eq!(m.noted("end"), vec!["end [0] Some(1)"]);
    assert_eq!(m.noted("scc").len(), 1);
    assert_eq!(m.noted("stack"), vec!["stack true"]);
    assert!(m.noted("adapt").is_empty());
}

#[test]
fn the_side_behind_a_jump_comes_first() {
    let mut m = mock();
    let ctx = context();
    let prog = program(vec![jump_if(3), Instr::Alu, Instr::Exit, Instr::Exit]);
    let r = analyze_program_full(&mut m, &ctx, &prog, Dbm::new(), &config(), None);
    assert!(r.error.is_none());
    assert_eq!(m.noted("transfer"), vec!["transfer 0", "transfer 1", "transfer 2", "transfer 3"]);
    assert_eq!(m.noted("read").len(), 2);
}

#[test]
fn a_covered_arrival_is_pruned() {
    let mut m = mock();
    m.prune_points = vec![2];
    let ctx = context();
    let r = analyze_program_full(&mut m, &ctx, &diamond(), Dbm::new(), &config(), None);
    assert!(r.error.is_none());
    assert_eq!(m.noted("transfer"), vec!["transfer 0", "transfer 1", "transfer 2", "transfer 3"]);
    assert_eq!((r.stats.insn_processed, r.stats.pruned), (5, 1));
    assert_eq!(m.noted("clean"), vec!["clean 2"]);
    assert_eq!(m.noted("precision"), vec!["precision Some(2)"]);
    assert!(m.noted("backedge").is_empty());
}

#[test]
fn a_loop_is_closed_where_marks_are_open() {
    let mut m = mock();
    m.prune_points = vec![2];
    m.loop_points = vec![2];
    m.open_marks = true;
    let ctx = context();
    let r = analyze_program_full(&mut m, &ctx, &diamond(), Dbm::new(), &config(), None);
    assert_eq!(r.stats.pruned, 1);
    assert!(m.noted("clean").is_empty());
    assert_eq!(m.noted("backedge"), vec!["backedge 2 2"]);
    assert_eq!(m.noted("subsumed"), vec!["subsumed Some(2) exact=true"]);
}

#[test]
fn every_visit_is_explored_on_demand() {
    let mut m = mock();
    m.prune_points = vec![2];
    let mut ctx = context();
    ctx.test_state_freq = true;
    let r = analyze_program_full(&mut m, &ctx, &diamond(), Dbm::new(), &config(), None);
    assert!(r.error.is_none());
    assert_eq!(r.stats.pruned, 0);
    assert_eq!(m.noted("transfer").len(), 6);
}

#[test]
fn a_loop_without_exit_is_not_pruned() {
    let mut m = mock();
    m.prune_points = vec![2];
    m.loop_points = vec![2];
    m.conditional_exit = false;
    let ctx = context();
    let r = analyze_program_full(&mut m, &ctx, &diamond(), Dbm::new(), &config(), None);
    assert_eq!(r.stats.pruned, 0);
    assert!(m.noted("subsumed").is_empty());
}

#[test]
fn an_endless_loop_is_found() {
    let mut m = mock();
    m.prune_points = vec![0];
    m.loop_points = vec![0];
    let ctx = context();
    let prog = program(vec![Instr::Alu, Instr::Jmp { target: 0 }]);
    let v = analyze_program(&mut m, &ctx, &prog, Dbm::new(), &config(), None);
    assert_eq!(v.err(), Some(VerificationError::InfiniteLoopDetected { pc: 0 }));
}

#[test]
fn the_budget_ends_a_run() {
    let mut m = mock();
    let ctx = context();
    let prog = program(vec![Instr::Alu, Instr::Jmp { target: 0 }]);
    let mut c = config();
    c.max_insn = 5;
    let r = analyze_program_full(&mut m, &ctx, &prog, Dbm::new(), &c, None);
    assert_eq!(r.error, Some(VerificationError::ComplexityLimitExceeded { limit: 5 }));
    assert_eq!(r.stats.insn_processed, 6);
    assert_eq!(m.noted("transfer").len(), 5);
    // What was explored is given nevertheless.
    assert_eq!(r.explored_states[&0].len(), 3);
    let mut with_proofs = config();
    with_proofs.bcf_enabled = true;
    with_proofs.bcf_max_insn = 3;
    let v = analyze_program(&mut mock(), &ctx, &prog, Dbm::new(), &with_proofs, None);
    assert_eq!(v.err(), Some(VerificationError::ComplexityLimitExceeded { limit: 3 }));
}

#[test]
fn the_cache_keeps_the_newest() {
    let mut m = mock();
    let ctx = context();
    let prog = program(vec![Instr::Alu, Instr::Jmp { target: 0 }]);
    let mut c = config();
    c.max_insn = 9;
    c.max_states_per_pc = 2;
    let r = analyze_program_full(&mut m, &ctx, &prog, Dbm::new(), &c, None);
    let ids: Vec<Option<u32>> = r.explored_states[&0].iter().map(|s| s.cache_id).collect();
    assert_eq!(ids, vec![Some(6), Some(8)]);
    assert_eq!(r.stats.evictions, 6);
}

#[test]
fn the_second_half_of_a_wide_load_is_never_entered() {
    let mut m = mock();
    let ctx = context();
    let prog = Program { instrs: vec![Instr::Alu, Instr::Exit], invalid_pcs: vec![1] };
    let v = analyze_program(&mut m, &ctx, &prog, Dbm::new(), &config(), None);
    assert_eq!(v.err(), Some(VerificationError::InvalidBPFLoadImmInsn { pc: 1 }));
}

#[test]
fn a_failed_instruction_ends_a_run() {
    let mut m = mock();
    m.fail_at = Some(1);
    let ctx = context();
    let prog = program(vec![jump_if(3), Instr::Alu, Instr::Exit, Instr::Exit]);
    let r = analyze_program_full(&mut m, &ctx, &prog, Dbm::new(), &config(), None);
    assert_eq!(r.error, Some(VerificationError::Instruction { pc: 1, code: 7 }));
    assert_eq!(m.noted("transfer"), vec!["transfer 0", "transfer 1"]);
    assert_eq!(r.dbms.len(), 4);
}

#[test]
fn structure_is_checked_first() {
    let ctx = context();
    let prog = program(vec![Instr::Exit]);
    let mut m = mock();
    m.subprogs = Err(String::from("s"));
    let v = analyze_program(&mut m, &ctx, &prog, Dbm::new(), &config(), None);
    assert_eq!(v.err(), Some(VerificationError::SubprogError { e: String::from("s") }));
    let mut m = mock();
    m.stack = Err(String::from("t"));
    m.cfg = Err(String::from("c"));
    let r = analyze_program_full(&mut m, &ctx, &prog, Dbm::new(), &config(), None);
    assert_eq!(r.error, Some(VerificationError::SubprogError { e: String::from("t") }));
    assert!(r.dbms.is_empty() && r.explored_states.is_empty());
    m.stack = Ok(());
    let v = analyze_program(&mut m, &ctx, &prog, Dbm::new(), &config(), None);
    assert_eq!(v.err(), Some(VerificationError::CfgError(String::from("c"))));
    assert!(m.noted("liveness").is_empty());
}

#[test]
fn maps_are_checked_before_control_flow() {
    let mut ctx = context();
    ctx.prog_kind = ProgramKind::Kprobe;
    ctx.map_defs = vec![
        MapDef { name: String::from("plain"), special_fields: Some(vec![SpecialFieldKind::Other]) },
        MapDef { name: String::from("timed"), special_fields: Some(vec![SpecialFieldKind::Other, SpecialFieldKind::Timer]) },
    ];
    ctx.relocs = vec![Reloc { kind: RelocKind::MapPtr, map_idx: 0 }, Reloc { kind: RelocKind::Other, map_idx: 1 }];
    let prog = program(vec![Instr::Exit]);
    let mut m = mock();
    assert!(analyze_program(&mut m, &ctx, &prog, Dbm::new(), &config(), None).is_ok());
    ctx.relocs.push(Reloc { kind: RelocKind::MapValue, map_idx: 1 });
    m.cfg = Err(String::from("c"));
    let v = analyze_program(&mut m, &ctx, &prog, Dbm::new(), &config(), None);
    assert_eq!(
        v.err(),
        Some(VerificationError::MapProgIncompat {
            map_name: String::from("timed"),
            field: "bpf_timer",
            kind: ProgramKind::Kprobe,
        })
    );
    // A socket filter may use timers, but no locks.
    m.cfg = Ok(());
    ctx.prog_kind = ProgramKind::SocketFilter;
    assert!(analyze_program(&mut m, &ctx, &prog, Dbm::new(), &config(), None).is_ok());
    ctx.map_defs[1].special_fields = Some(vec![SpecialFieldKind::ResSpinLock]);
    assert!(analyze_program(&mut m, &ctx, &prog, Dbm::new(), &config(), None).is_err());
    ctx.prog_kind = ProgramKind::Unknown;
    assert!(analyze_program(&mut m, &ctx, &prog, Dbm::new(), &config(), None).is_ok());
    ctx.attach_flavor = Some(String::from("raw_tp"));
    assert!(analyze_program(&mut m, &ctx, &prog, Dbm::new(), &config(), None).is_err());
}

#[test]
fn private_stacks_of_members_are_asked_for() {
    let prog = program(vec![Instr::Exit]);
    let mut ctx = context();
    ctx.prog_kind = ProgramKind::StructOps;
    let mut m = mock();
    let _ = analyze_program(&mut m, &ctx, &prog, Dbm::new(), &config(), None);
    ctx.priv_stack_requested = true;
    let _ = analyze_program(&mut m, &ctx, &prog, Dbm::new(), &config(), None);
    let mut c = config();
    c.enable_private_stack = false;
    let _ = analyze_program(&mut m, &ctx, &prog, Dbm::new(), &c, None);
    assert_eq!(m.noted("stack"), vec!["stack false", "stack true", "stack false"]);
}

fn certificate(hash: &str) -> Option<Certificate> {
    Some(Certificate {
        program_hash: String::from(hash),
        annotations: vec![
            Annotation { pc: 1, entries: vec![4, 5] },
            Annotation { pc: 7, entries: vec![6] },
            Annotation { pc: 1, entries: vec![8] },
        ],
    })
}

#[test]
fn certificates_narrow_successors() {
    let ctx = context();
    let prog = program(vec![Instr::Alu, Instr::Exit]);
    let mut m = mock();
    let _ = analyze_program(&mut m, &ctx, &prog, Dbm::new(), &config(), certificate("h"));
    assert_eq!(m.noted("check"), vec!["check 1 4", "check 1 5", "check 1 8"]);
    assert_eq!(m.noted("refine"), vec!["refine 1 [40, 80]"]);
}

#[test]
fn other_certificates_have_no_part() {
    let ctx = context();
    let prog = program(vec![Instr::Alu, Instr::Exit]);
    let mut m = mock();
    let _ = analyze_program(&mut m, &ctx, &prog, Dbm::new(), &config(), certificate("other"));
    m.fits = false;
    let _ = analyze_program(&mut m, &ctx, &prog, Dbm::new(), &config(), certificate("h"));
    assert!(m.noted("check").is_empty() && m.noted("refine").is_empty());
}

/// The numbers of the states that were cached at each place.
fn cached_ids(states: &std::collections::HashMap<usize, Vec<State>>, n: usize) -> Vec<Vec<Option<u32>>> {
    (0..n)
        .map(|pc| match states.get(&pc) {
            Some(v) => v.iter().map(|s| s.cache_id).collect(),
            None => vec![],
        })
        .collect()
}

#[test]
fn a_refused_certificate_leaves_a_run_as_it_is() {
    let ctx = context();
    let prog = diamond();
    let mut other = mock();
    other.prune_points = vec![2];
    other.fail_at = Some(3);
    let with = analyze_program_full(&mut other, &ctx, &prog, Dbm { matrix: 3, provenance: true }, &config(), certificate("other"));
    let mut none = mock();
    none.prune_points = vec![2];
    none.fail_at = Some(3);
    let without = analyze_program_full(&mut none, &ctx, &prog, Dbm::new(), &config(), None);
    assert_eq!(with.error, Some(VerificationError::Instruction { pc: 3, code: 7 }));
    assert_eq!(with.error, without.error);
    assert_eq!(with.stats, without.stats);
    assert_eq!(cached_ids(&with.explored_states, 4), cached_ids(&without.explored_states, 4));
    assert_eq!(other.log.borrow().clone(), none.log.borrow().clone());
}

#[test]
fn analyses_that_start_alike_give_the_same() {
    let ctx = context();
    let prog = diamond();
    let domain = NumericDomain::Interval(4);
    let mut first = mock();
    first.prune_points = vec![2];
    let mut second = mock();
    second.prune_points = vec![2];
    let a = analyze_from(&mut first, &ctx, &prog, domain, &config(), certificate("other"));
    let b = analyze_from(&mut second, &ctx, &prog, domain, &config(), certificate("other"));
    assert_eq!(a.error, None);
    assert_eq!((a.error, a.stats, a.dbms), (b.error, b.stats, b.dbms));
    assert_eq!(cached_ids(&a.explored_states, 4), cached_ids(&b.explored_states, 4));
    assert_eq!(first.log.borrow().clone(), second.log.borrow().clone());
}

#[test]
fn callbacks_ignore_the_matrix() {
    let ctx = context();
    let prog = diamond();
    let mut first = mock();
    first.fail_at = Some(2);
    let mut second = mock();
    second.fail_at = Some(2);
    let a = analyze_exception_cb(&mut first, &ctx, &prog, Dbm::new(), &config(), 0);
    let b = analyze_exception_cb(&mut second, &ctx, &prog, Dbm { matrix: 8, provenance: true }, &config(), 0);
    assert_eq!(a, Some(VerificationError::Instruction { pc: 2, code: 7 }));
    assert_eq!(a, b);
    assert_eq!(first.log.borrow().clone(), second.log.borrow().clone());
}

#[test]
fn first_states_stay_where_a_run_fails() {
    let ctx = context();
    let prog = program(vec![jump_if(3), Instr::Alu, Instr::Exit, Instr::Alu, Instr::Exit]);
    for max in [0usize, 1, 2] {
        for fail in [1usize, 3, 4] {
            let mut m = mock();
            m.prune_points = vec![0, 3];
            m.fail_at = Some(fail);
            let mut c = config();
            c.max_states_per_pc = max;
            let r = analyze_program_full(&mut m, &ctx, &prog, Dbm::new(), &c, None);
            assert_eq!(r.error, Some(VerificationError::Instruction { pc: fail, code: 7 }));
            assert_eq!(cached_ids(&r.explored_states, 1), vec![vec![Some(0)]]);
        }
    }
}

#[test]
fn sparse_runs_cache_at_prune_points_only() {
    let ctx = context();
    let prog = program(vec![Instr::Alu, Instr::Alu, Instr::Alu, Instr::Alu, Instr::Exit]);
    let mut m = mock();
    m.prune_points = vec![1, 3];
    m.force_at = Some(3);
    let mut c = config();
    c.kernel_engine = true;
    let r = analyze_program_full(&mut m, &ctx, &prog, Dbm::new(), &c, None);
    assert!(r.error.is_none());
    assert_eq!(cached_ids(&r.explored_states, 5), vec![vec![], vec![], vec![], vec![Some(0)], vec![]]);
}

#[test]
fn zones_keep_track_of_proofs() {
    let ctx = context();
    let prog = program(vec![Instr::Exit]);
    let mut c = config();
    c.domain_mode = DomainMode::Zone;
    let dbm = Dbm { matrix: 9, provenance: false };
    let mut m = mock();
    let v = analyze_program(&mut m, &ctx, &prog, dbm, &c, None).ok().unwrap();
    assert_eq!(v, vec![dbm]);
    c.certificate_output = Some(String::from("out"));
    let v = analyze_program(&mut m, &ctx, &prog, dbm, &c, None).ok().unwrap();
    assert_eq!(v, vec![Dbm { matrix: 9, provenance: true }]);
    // Outside the precise arithmetic, all but the last instruction adapt.
    let two = program(vec![Instr::Alu, Instr::Exit]);
    let _ = analyze_program(&mut m, &ctx, &two, dbm, &c, None);
    assert_eq!(m.noted("adapt"), vec!["adapt 0"]);
}

#[test]
fn callbacks_start_at_their_entry() {
    let mut m = mock();
    let mut ctx = context();
    ctx.prog_kind = ProgramKind::Kprobe;
    ctx.map_defs = vec![MapDef { name: String::from("m"), special_fields: Some(vec![SpecialFieldKind::Timer]) }];
    ctx.relocs = vec![Reloc { kind: RelocKind::MapPtr, map_idx: 0 }];
    let prog = program(vec![Instr::Exit, Instr::Alu, Instr::Exit]);
    assert_eq!(analyze_exception_cb(&mut m, &ctx, &prog, Dbm::new(), &config(), 1), None);
    assert_eq!(m.noted("transfer"), vec!["transfer 1", "transfer 2"]);
    assert!(m.noted("scc").is_empty());
    m.fail_at = Some(2);
    assert_eq!(
        analyze_exception_cb(&mut m, &ctx, &prog, Dbm::new(), &config(), 1),
        Some(VerificationError::Instruction { pc: 2, code: 7 })
    );
    m.subprogs = Err(String::from("s"));
    assert_eq!(
        analyze_exception_cb(&mut m, &ctx, &prog, Dbm::new(), &config(), 1),
        Some(VerificationError::SubprogError { e: String::from("s") })
    );
    let mut m = mock();
    m.cfg = Err(String::from("c"));
    assert_eq!(
        analyze_exception_cb(&mut m, &ctx, &prog, Dbm::new(), &config(), 1),
        Some(VerificationError::CfgError(String::from("c")))
    );
}

fn state(pc: usize) -> State {
    State::new(NumericDomain::Interval(0), pc)
}

#[test]
fn sparse_checkpoints_stand_at_prune_points() {
    let ctx = context();
    let prog = program(vec![Instr::Alu; 4]);
    let mut c = config();
    c.kernel_engine = true;
    let mut m = mock();
    m.prune_points = vec![2];
    let mut env = VerifierEnv::new(&ctx, &prog, None, true, false);
    env.insn_aux[2].force_checkpoint = true;
    env.insn_aux[1].force_checkpoint = true;
    let mut s = state(1);
    assert_eq!(receive(&mut m, &mut env, &prog, &c, &mut s), Arrival::Explore);
    assert_eq!(s.parent_cache_id, None);
    let mut s = state(2);
    s.jmp_history_cnt = 3;
    assert_eq!(receive(&mut m, &mut env, &prog, &c, &mut s), Arrival::Explore);
    assert_eq!((s.parent_cache_id, s.first_insn_idx, s.jmp_history_cnt), (Some(0), 2, 0));
    assert_eq!(env.counters.prev_insn_processed, 2);
}

#[test]
fn a_failed_run_explores_nothing() {
    let ctx = context();
    let prog = program(vec![Instr::Exit]);
    let mut m = mock();
    let mut env = VerifierEnv::new(&ctx, &prog, None, true, false);
    env.error = Some(VerificationError::Instruction { pc: 0, code: 1 });
    assert_eq!(run_worklist(&mut m, &mut env, &prog, &config(), state(0)), 0);
    assert_eq!(env.counters.insn_processed, 0);
    assert!(m.noted("transfer").is_empty());
}

#[test]
fn bounded_jumps_are_covered_by_other_depths() {
    let ctx = context();
    let prog = program(vec![Instr::MayGoto { target: 0 }, Instr::Exit]);
    let mut m = mock();
    m.prune_points = vec![0];
    let mut env = VerifierEnv::new(&ctx, &prog, None, true, false);
    let mut cached = state(0);
    cached.may_goto_depth = 1;
    env.cache.record(cached, 0);
    assert!(should_prune(&mut m, &mut env, &state(0), &prog));
    let mut same = state(0);
    same.may_goto_depth = 1;
    // The unfinished candidate of the same depth does not cover it.
    assert!(!should_prune(&mut m, &mut env, &same, &prog));
    assert!(env.saw_active_state_at_check);
    // Behind the program nothing is decided.
    assert!(!should_prune(&mut m, &mut env, &state(9), &prog));
    assert!(!env.saw_active_state_at_check);
}

#[test]
fn precision_does_not_count_at_bounded_jumps() {
    let ctx = context();
    let prog = program(vec![Instr::MayGoto { target: 0 }, Instr::Exit]);
    for precise in [false, true] {
        let mut m = mock();
        m.prune_points = vec![0];
        let mut env = VerifierEnv::new(&ctx, &prog, None, true, false);
        let mut cached = state(0);
        cached.may_goto_depth = 1;
        env.cache.record(cached, 0);
        let mut arriving = state(0);
        arriving.regs[2].precise = precise;
        assert!(should_prune(&mut m, &mut env, &arriving, &prog));
        assert_eq!(m.noted("asked"), vec!["asked precise=false"]);
    }
}

fn conditional(pc: usize) -> State {
    let mut s = state(pc);
    s.bcf = Some(SymbolicState::new(false));
    s.set_type(Reg::R1, RegType::ScalarValue);
    s
}

#[test]
fn unreadable_operands_end_the_path() {
    let ctx = context();
    let prog = program(vec![jump_if(2)]);
    let mut env = VerifierEnv::new(&ctx, &prog, None, true, true);
    let mut m = mock();
    m.readable = false;
    assert!(transfer_if(&mut m, &mut env, conditional(0), &jump_if(2)).is_empty());
    assert_eq!(m.noted("read"), vec!["read Reg(R1) true"]);
}

#[test]
fn a_known_outcome_is_marked_and_followed() {
    let ctx = context();
    let prog = program(vec![jump_if(2)]);
    let mut env = VerifierEnv::new(&ctx, &prog, None, true, true);
    let mut m = mock();
    m.outcome = Some(true);
    let mut s = conditional(0);
    s.history_idx = Some(4);
    let r = transfer_if(&mut m, &mut env, s, &jump_if(2));
    assert_eq!(r.iter().map(|s| s.pc).collect::<Vec<usize>>(), vec![2]);
    assert_eq!(r[0].bcf.as_ref().unwrap().conds.len(), 2);
    assert_eq!(m.noted("mark"), vec!["mark 4 R1"]);
    // Intervals do not rule out more than a coarser analysis.
    assert!(m.noted("prove").is_empty());
    let mut zone = conditional(0);
    zone.domain = NumericDomain::Zone(Dbm::new());
    let r = transfer_if(&mut m, &mut env, zone, &jump_if(2));
    assert_eq!(r.len(), 1);
    assert_eq!(m.noted("prove").len(), 1);
    assert_eq!(m.noted("parents"), vec!["parents None"]);
}

#[test]
fn sides_are_narrowed_in_order() {
    let ctx = context();
    let prog = program(vec![Instr::Alu; 10]);
    let mut env = VerifierEnv::new(&ctx, &prog, None, true, false);
    let mut m = mock();
    let _ = transfer_if(&mut m, &mut env, conditional(3), &jump_if(7));
    assert_eq!(m.noted("narrow"), vec!["narrow 7 4 R1 Eq W64 Imm(0)", "narrow links R1"]);
    let mut m = mock();
    let by_reg = Instr::If { width: Width::W32, left: Reg::R1, op: CmpOp::UGt, right: Operand::Reg(Reg::R2), target: 8 };
    let _ = transfer_if(&mut m, &mut env, conditional(3), &by_reg);
    assert_eq!(
        m.noted("narrow"),
        vec!["narrow 8 4 R1 UGt W32 Reg(R2)", "narrow packets R1 R2 UGt", "narrow links R1"]
    );
}

#[test]
fn empty_sides_are_dropped_and_proved() {
    let ctx = context();
    let prog = program(vec![jump_if(2)]);
    let mut env = VerifierEnv::new(&ctx, &prog, None, false, true);
    let mut m = mock();
    m.empty_at = vec![1, 2];
    m.forms = vec![GoalForm::Rewrite];
    let mut zone = conditional(0);
    zone.domain = NumericDomain::Zone(Dbm::new());
    assert!(transfer_if(&mut m, &mut env, zone, &jump_if(2)).is_empty());
    // Both sides give the natural proof, whatever its hash.
    let hashes: Vec<u64> = env.bcf_proofs.iter().map(|e| e.goal.cond_hash).collect();
    assert_eq!(hashes, vec![1, 1]);
    // A replay follows both sides.
    env.replay_mode = true;
    let mut zone = conditional(0);
    zone.domain = NumericDomain::Zone(Dbm::new());
    let r = transfer_if(&mut m, &mut env, zone, &jump_if(2));
    assert_eq!(r.iter().map(|s| s.pc).collect::<Vec<usize>>(), vec![2, 1]);
    assert_eq!(env.bcf_proofs.len(), 2);
}

fn crumb(pc: usize, instr: Instr, parent: Option<usize>) -> Breadcrumb {
    Breadcrumb { pc, instr, parent_idx: parent, num_frames: 1, linked: vec![] }
}

/// A run that has come over a conditional jump at 1 and an instruction at 2 to the
/// instruction at 3, with checkpoints before 0 and before 1.
fn traced_run<'a>(ctx: &'a ExecContext, prog: &Program) -> VerifierEnv<'a> {
    let mut env = VerifierEnv::new(ctx, prog, None, true, true);
    env.history = vec![
        crumb(0, Instr::Alu, None),
        crumb(1, jump_if(9), Some(0)),
        crumb(2, Instr::Alu, Some(1)),
        crumb(3, Instr::Alu, Some(2)),
    ];
    env.current_step_idx = Some(3);
    let root = conditional(0);
    env.cache.record(root, 0);
    let mut second = conditional(1);
    second.history_idx = Some(0);
    second.parent_cache_id = Some(0);
    env.cache.record(second, 0);
    env
}

#[test]
fn every_rung_of_a_replay_is_tried() {
    let ctx = context();
    let prog = program(vec![Instr::Alu; 10]);
    let mut env = traced_run(&ctx, &prog);
    env.error = Some(VerificationError::Instruction { pc: 3, code: 2 });
    env.counters.insn_processed = 77;
    let mut m = mock();
    m.prove_replays = true;
    let goals = try_prove_unreachable_via_replay(&mut m, &mut env, &conditional(3), 1);
    // Plainly, behind the jump and before it: each sees the jump's condition.
    let named: Vec<(i32, u64)> = goals.iter().map(|(r, g)| (*r, g.cond_hash)).collect();
    assert_eq!(named, vec![(-1, 102), (1, 102), (1, 102)]);
    assert_eq!(m.noted("transfer").len(), 6);
    assert_eq!(env.error, Some(VerificationError::Instruction { pc: 3, code: 2 }));
    assert_eq!(env.counters.insn_processed, 77);
    assert!(!env.replay_mode && env.bcf_proofs.is_empty());
}

#[test]
fn a_replay_that_leaves_its_path_proves_nothing() {
    let ctx = context();
    let prog = program(vec![Instr::Alu; 10]);
    let mut env = traced_run(&ctx, &prog);
    let mut m = mock();
    m.prove_replays = true;
    m.fail_at = Some(2);
    assert!(try_prove_unreachable_via_replay(&mut m, &mut env, &conditional(3), 1).is_empty());
    assert!(m.noted("replayed").is_empty());
    assert!(env.error.is_none());
    assert!(try_prove_unreachable_via_replay(&mut m, &mut env, &conditional(3), 8).is_empty());
}

fn shape(anchor_at_parent: bool, share_slot_vars: bool, reset_at_crossing: Option<usize>) -> ReplayShape {
    ReplayShape { anchor_at_parent, share_slot_vars, reset_at_crossing, crossing_pc: None }
}

#[test]
fn a_replay_stops_before_the_access() {
    let ctx = context();
    let prog = program(vec![Instr::Alu; 10]);
    let mut env = traced_run(&ctx, &prog);
    let mut m = mock();
    let s = replay_to_reject(&mut m, &mut env, 1, shape(false, false, None)).unwrap();
    assert_eq!((s.pc, s.bcf.as_ref().unwrap().conds.len()), (3, 2));
    assert_eq!(m.noted("transfer"), vec!["transfer 1", "transfer 2"]);
    // From the parent, with the symbolic side starting over behind the base.
    let s = replay_to_reject(&mut m, &mut env, 1, shape(true, true, None)).unwrap();
    let table = s.bcf.as_ref().unwrap();
    assert_eq!((s.pc, table.conds.len(), table.share_slot_vars), (3, 2, true));
    assert_eq!(m.noted("transfer").len(), 5);
    // No such crossing, no such checkpoint.
    assert!(replay_to_reject(&mut m, &mut env, 1, shape(false, true, Some(1))).is_none());
    assert!(replay_to_reject(&mut m, &mut env, 5, shape(false, true, None)).is_none());
    assert!(replay_to_reject(&mut m, &mut env, 0, shape(true, true, None)).is_none());
    // From the parent no crossing is counted, and where nothing is found none is
    // either: the number zero is refused like any other.
    assert!(replay_to_reject(&mut m, &mut env, 1, shape(true, true, Some(0))).is_none());
    assert!(replay_to_reject(&mut m, &mut env, 5, shape(false, true, Some(0))).is_none());
}

#[test]
fn a_checkpoint_right_before_the_access_is_reached_at_once() {
    let ctx = context();
    let prog = program(vec![Instr::Alu; 10]);
    let mut env = traced_run(&ctx, &prog);
    env.current_step_idx = Some(1);
    let mut m = mock();
    let s = replay_to_reject(&mut m, &mut env, 1, shape(false, true, None)).unwrap();
    assert_eq!((s.pc, s.bcf.as_ref().unwrap().conds.len()), (1, 0));
    assert!(m.noted("transfer").is_empty());
}

fn access() -> MapAccess {
    MapAccess { base: Reg::R1, insn_off: 0, size: 8, map_limit: 16 }
}

#[test]
fn map_accesses_are_proved_directly_and_on_replays() {
    let ctx = context();
    let prog = program(vec![Instr::Alu; 10]);
    let mut env = traced_run(&ctx, &prog);
    let mut m = mock();
    m.base = Some((1, 1));
    m.prove_direct = true;
    m.prove_replayed_access = true;
    m.parents = vec![0];
    let mut s = conditional(3);
    s.history_idx = Some(2);
    s.parent_cache_id = Some(1);
    assert!(try_bcf_refine_map(&mut m, &mut env, &s, access()));
    let hashes: Vec<u64> = env.bcf_proofs.iter().map(|e| e.goal.cond_hash).collect();
    // The live state's goal, then one for each new hash of a replay.
    assert_eq!(hashes, vec![50, 62]);
    assert!(env.bcf_proofs.iter().all(|e| e.kind == BundleKind::Refine));
    assert_eq!(m.noted("direct"), vec!["direct size=None base=Some(1)"]);
    assert_eq!(m.noted("parents"), vec!["parents Some(1)"]);
    assert!(env.cache.data().state_by_cache_id(0).unwrap().1.children_unsafe);
    assert!(!env.cache.data().state_by_cache_id(1).unwrap().1.children_unsafe);
}

#[test]
fn unproved_accesses_stay_refused() {
    let ctx = context();
    let prog = program(vec![Instr::Alu; 10]);
    let mut env = traced_run(&ctx, &prog);
    let mut m = mock();
    assert!(!try_bcf_refine_map(&mut m, &mut env, &conditional(3), access()));
    assert!(!try_bcf_refine_map(&mut m, &mut env, &state(3), access()));
    assert_eq!(m.noted("direct").len(), 1);
    assert!(env.bcf_proofs.is_empty() && m.noted("parents").is_empty());
    // On a replay the live state alone counts, and nothing is added.
    env.replay_mode = true;
    m.prove_direct = true;
    m.base = Some((1, 1));
    assert!(try_bcf_refine_map(&mut m, &mut env, &conditional(3), access()));
    assert!(env.bcf_proofs.is_empty() && m.noted("transfer").is_empty());
}

#[test]
fn replayed_proofs_stand_for_the_natural_one() {
    let ctx = context();
    let prog = program(vec![Instr::Alu; 10]);
    let mut env = traced_run(&ctx, &prog);
    let mut m = mock();
    m.base = Some((1, 1));
    m.prove_replays = true;
    m.forms = vec![GoalForm::Rewrite];
    m.parents = vec![1];
    assert!(try_emit_path_unreachable_entry(&mut m, &mut env, &conditional(3)));
    let hashes: Vec<u64> = env.bcf_proofs.iter().map(|e| e.goal.cond_hash).collect();
    assert_eq!(hashes, vec![102]);
    // The natural form, then the recorded names at the base and at its ancestor.
    assert_eq!(
        m.noted("prove"),
        vec![
            "prove Rewrite base=Some(1) prev=Some(1001)",
            "prove NoRewrite base=Some(1) prev=Some(1001)",
            "prove NoRewrite base=Some(0) prev=Some(1000)",
        ]
    );
    assert!(env.cache.data().state_by_cache_id(1).unwrap().1.children_unsafe);
    assert_eq!(m.noted("base_pc"), vec!["base_pc step=3 targets=1"]);
}

#[test]
fn without_replays_every_form_is_tried() {
    let ctx = context();
    let prog = program(vec![Instr::Alu; 10]);
    let mut env = traced_run(&ctx, &prog);
    let mut m = mock();
    m.base = Some((1, 1));
    m.forms = vec![
        GoalForm::Rewrite,
        GoalForm::NoRewrite,
        GoalForm::Traj,
        GoalForm::RegFiltered { hops: 2 },
    ];
    assert!(try_emit_path_unreachable_entry(&mut m, &mut env, &conditional(3)));
    let hashes: Vec<u64> = env.bcf_proofs.iter().map(|e| e.goal.cond_hash).collect();
    assert_eq!(hashes, vec![2, 1, 4, 12]);
    // One natural, two near the base, nine at it, two at its ancestor.
    assert_eq!(m.noted("prove").len(), 14);
    assert!(env.bcf_proofs.iter().all(|e| e.kind == BundleKind::Unreachable));
}

#[test]
fn an_unproved_state_still_marks_its_ancestors() {
    let ctx = context();
    let prog = program(vec![Instr::Alu; 10]);
    let mut env = traced_run(&ctx, &prog);
    let mut m = mock();
    m.base = Some((1, 1));
    m.prove_replays = true;
    m.parents = vec![0, 1];
    assert!(!try_emit_path_unreachable_entry(&mut m, &mut env, &conditional(3)));
    // The replays' proofs stay, each hash once.
    let hashes: Vec<u64> = env.bcf_proofs.iter().map(|e| e.goal.cond_hash).collect();
    assert_eq!(hashes, vec![102]);
    assert!(env.cache.data().state_by_cache_id(0).unwrap().1.children_unsafe);
    // A marked checkpoint covers no later arrival.
    let mut later = mock();
    later.prune_points = vec![1];
    env.cache.patch(1, Patch { children_unsafe: None, cleaned: None, branches: Some(0), dfs_paths: None });
    assert!(!should_prune(&mut later, &mut env, &conditional(1), &prog));
    env.cache.patch(1, Patch { children_unsafe: Some(false), cleaned: None, branches: None, dfs_paths: None });
    assert!(should_prune(&mut later, &mut env, &conditional(1), &prog));
}

#[test]
fn nothing_is_tried_while_replaying() {
    let ctx = context();
    let prog = program(vec![Instr::Alu; 10]);
    let mut env = traced_run(&ctx, &prog);
    let mut m = mock();
    m.base = Some((1, 1));
    assert!(!try_emit_path_unreachable_entry(&mut m, &mut env, &state(3)));
    env.replay_mode = true;
    assert!(!try_emit_path_unreachable_entry(&mut m, &mut env, &conditional(3)));
    assert!(m.log.borrow().is_empty());
}
