use alivio::analysis::{
    check_map_prog_compatibility, collect_dbms, entry_arg_type, entry_state, exception_entry_state,
    make_initial_domain,
};
use alivio::ast::{ContextKind, Instr, Program, ProgramKind, Reg};
use alivio::cache::StateMetrics;
use alivio::ctx_model::CtxTables;
use alivio::env::{Annotation, Certificate, DomainMode, ExecContext, VerifierEnv};
use alivio::machine::{
    Dbm, EntryArg, NumericDomain, PtrFlags, RegType, StackSlot, StackSlotKind, State,
};
use alivio::worklist::{
    certified_entries, count_fork, count_jump, enqueue, is_spill_or_fill, note_arrival,
    prepare_successor, record_step, take_checkpoint, wants_checkpoint,
};
use std::collections::HashMap;

fn tables() -> CtxTables {
    CtxTables {
        sk_buff: vec![],
        sk_buff_extended: vec![],
        flow_dissector_extended: vec![],
        xdp_md: vec![],
        xdp_md_devmap: vec![],
        sock_addr: vec![],
        sockopt: vec![],
        sk_lookup: vec![],
        sk_reuseport: vec![],
        sock_ops: vec![],
        sock: vec![],
        sk_msg_md: vec![],
        pt_regs: vec![],
        trace_iter_task: vec![],
        sk_buff_cb: (0, 0),
        sock_addr_user_ip6: (0, 0),
        sock_addr_msg_src_ip6: (0, 0),
    }
}

fn context(prog_kind: ProgramKind) -> ExecContext {
    ExecContext {
        prog_kind,
        context_kind: ContextKind::Unmodeled,
        attach_flavor: None,
        attach_subtype: None,
        entry_args: None,
        freplace_arg_types: None,
        btf_fields: vec![],
        maybe_null_args: vec![],
        tables: tables(),
        map_defs: vec![],
        relocs: vec![],
        priv_stack_requested: false,
        test_state_freq: false,
    }
}

fn state(pc: usize) -> State {
    State::new(NumericDomain::Interval(0), pc)
}

fn program(instrs: Vec<Instr>) -> Program {
    Program { instrs, invalid_pcs: vec![] }
}

#[test]
fn successors_that_go_back_come_last() {
    let mut work = vec![state(100)];
    enqueue(&mut work, vec![state(1), state(2), state(3), state(4)], &vec![false, true, false, true]);
    let pcs: Vec<usize> = work.iter().map(|s| s.pc).collect();
    assert_eq!(pcs, vec![100, 2, 4, 3, 1]);
}

#[test]
fn spills_and_fills_are_told_apart() {
    let mut s = state(0);
    s.set_type(Reg::R3, RegType::PtrToStack { frame_level: 0 });
    s.frames[0].slots = vec![
        StackSlot { off: -8, kind: StackSlotKind::Spill, reg_type: RegType::ScalarValue, scalar_id: None, precise: false, bcf_expr: None },
        StackSlot { off: -16, kind: StackSlotKind::Misc, reg_type: RegType::ScalarValue, scalar_id: None, precise: false, bcf_expr: None },
    ];
    let on = |i: Instr| is_spill_or_fill(&s, &Some(i));
    assert!(on(Instr::Store { base: Reg::R10, off: -8 }));
    assert!(!on(Instr::Store { base: Reg::R10, off: -12 }));
    // A pointer whose distance is not known may be off the slot.
    assert!(!on(Instr::Store { base: Reg::R3, off: -8 }));
    assert!(!on(Instr::Store { base: Reg::R4, off: -8 }));
    assert!(on(Instr::StoreRel { base: Reg::R3, off: -3 }));
    assert!(on(Instr::Load { base: Reg::R10, off: -8 }));
    assert!(on(Instr::LoadAcq { base: Reg::R3, off: -8 }));
    assert!(!on(Instr::Load { base: Reg::R10, off: -16 }));
    assert!(!on(Instr::Load { base: Reg::R10, off: -24 }));
    assert!(!on(Instr::Alu));
    assert!(!is_spill_or_fill(&s, &None));
    s.regs[3].frame_distance = Some(-16);
    assert!(is_spill_or_fill(&s, &Some(Instr::Store { base: Reg::R3, off: 8 })));
    assert!(!is_spill_or_fill(&s, &Some(Instr::Store { base: Reg::R3, off: 4 })));
}

#[test]
fn arrivals_count_decisions() {
    let ctx = context(ProgramKind::Xdp);
    let prog = program(vec![Instr::Store { base: Reg::R10, off: -8 }, Instr::Alu]);
    let mut env = VerifierEnv::new(&ctx, &prog, None, true, false);
    let mut s = state(0);
    note_arrival(&env, &prog, &mut s);
    assert_eq!((s.path_insn_count, s.jmp_history_cnt), (1, 1));
    env.insn_aux[0].jmp_point = true;
    note_arrival(&env, &prog, &mut s);
    assert_eq!((s.path_insn_count, s.jmp_history_cnt), (2, 3));
    s.pc = 1;
    s.path_insn_count = usize::MAX;
    note_arrival(&env, &prog, &mut s);
    assert_eq!((s.path_insn_count, s.jmp_history_cnt), (usize::MAX, 3));
}

#[test]
fn checkpoints_are_dampened_in_loops() {
    let ctx = context(ProgramKind::Xdp);
    let prog = program(vec![Instr::Alu]);
    let mut env = VerifierEnv::new(&ctx, &prog, None, true, false);
    let s = state(0);
    assert!(wants_checkpoint(&env, &s, false, false));
    assert!(!wants_checkpoint(&env, &s, true, true));
    env.counters.jmps_processed = 2;
    env.counters.insn_processed = 8;
    assert!(wants_checkpoint(&env, &s, true, true));
    assert!(!wants_checkpoint(&env, &s, true, false));
    env.saw_active_state_at_check = true;
    assert!(!wants_checkpoint(&env, &s, true, true));
    env.counters.insn_processed = 100;
    assert!(wants_checkpoint(&env, &s, true, true));
    env.counters.insn_processed = 0;
    env.insn_aux[0].force_checkpoint = true;
    assert!(wants_checkpoint(&env, &s, true, true));
}

#[test]
fn counting_starts_over_behind_a_checkpoint() {
    let ctx = context(ProgramKind::Xdp);
    let prog = program(vec![Instr::Alu; 4]);
    let mut env = VerifierEnv::new(&ctx, &prog, None, true, false);
    env.counters.jmps_processed = 30;
    env.counters.insn_processed = 200;
    let mut s = state(3);
    s.path_jmp_count = 5;
    s.path_insn_count = 9;
    s.jmp_history_cnt = 41;
    let copy = s.duplicate();
    take_checkpoint(&mut env, &mut s, copy, 0);
    assert_eq!((s.prev_jmp_at_cache, s.prev_insn_at_cache, s.jmp_history_cnt), (5, 9, 0));
    assert_eq!((s.parent_cache_id, s.first_insn_idx), (Some(0), 3));
    assert_eq!((env.counters.prev_jmps_processed, env.counters.prev_insn_processed), (30, 200));
    assert!(!wants_checkpoint(&env, &s, true, true));
    // The cached copy keeps the segment it came from.
    let cached = env.cache.data().state_by_cache_id(0).unwrap().1;
    assert_eq!((cached.first_insn_idx, cached.jmp_history_cnt), (0, 41));
}

#[test]
fn steps_are_recorded() {
    let ctx = context(ProgramKind::Xdp);
    let prog = program(vec![Instr::Exit]);
    let mut env = VerifierEnv::new(&ctx, &prog, None, true, false);
    let mut s = state(0);
    s.history_idx = Some(7);
    assert_eq!(record_step(&mut env, &s, Instr::Exit), 0);
    assert_eq!(record_step(&mut env, &s, Instr::Exit), 1);
    assert_eq!((env.history[1].pc, env.history[1].parent_idx, env.history[1].num_frames), (0, Some(7), 1));
    assert_eq!(env.current_step_idx, Some(1));
    count_jump(&mut env, &mut s, &Instr::Exit);
    count_jump(&mut env, &mut s, &Instr::Alu);
    assert_eq!((env.counters.jmps_processed, s.path_jmp_count), (1, 1));
    prepare_successor(&mut s, 1, 0, 4);
    assert_eq!((s.history_idx, s.last_insn_idx, s.dfs_depth, s.branches), (Some(1), 0, 5, 1));
}

#[test]
fn forks_are_counted_above() {
    let ctx = context(ProgramKind::Xdp);
    let prog = program(vec![Instr::Alu]);
    let mut env = VerifierEnv::new(&ctx, &prog, None, true, false);
    env.cache.record(state(0), 0);
    count_fork(&mut env, Some(0), 1);
    count_fork(&mut env, None, 5);
    count_fork(&mut env, Some(9), 5);
    assert_eq!(env.cache.data().state_by_cache_id(0).unwrap().1.branches, 1);
    count_fork(&mut env, Some(0), 3);
    let s = env.cache.data().state_by_cache_id(0).unwrap().1;
    assert_eq!((s.branches, s.dfs_paths), (3, 3));
}

#[test]
fn checkpoints_and_forks_touch_nothing_else() {
    let ctx = context(ProgramKind::Xdp);
    let prog = program(vec![Instr::Alu; 4]);
    let mut env = VerifierEnv::new(&ctx, &prog, None, true, false);
    env.cache.record(state(1), 0);
    env.cache.record(state(1), 0);
    env.cache.record(state(2), 0);
    env.cache.set_score(1, 1, StateMetrics { hit_cnt: 2, miss_cnt: 1 });
    env.cache.set_score(2, 0, StateMetrics { hit_cnt: 5, miss_cnt: 0 });
    let mut s = state(2);
    let copy = s.duplicate();
    take_checkpoint(&mut env, &mut s, copy, 1);
    // The older state has left the full bucket; the other bucket is as it was.
    assert_eq!((env.cache.data().count(1), env.cache.data().count(2)), (2, 1));
    assert_eq!(env.cache.data().metrics[&1][1], StateMetrics { hit_cnt: 2, miss_cnt: 1 });
    assert_eq!(env.cache.data().metrics[&2], vec![StateMetrics { hit_cnt: 0, miss_cnt: 0 }]);
    assert_eq!(env.cache.data().evictions, 1);
    count_fork(&mut env, Some(1), 2);
    let branches: Vec<u32> = env.cache.data().explored[&1].iter().map(|s| s.branches).collect();
    assert_eq!(branches, vec![1, 2]);
    assert_eq!(env.cache.data().count(2), 1);
    assert_eq!(env.cache.data().metrics[&1][1], StateMetrics { hit_cnt: 2, miss_cnt: 1 });
    // A retired checkpoint is counted on too.
    count_fork(&mut env, Some(2), 4);
    assert_eq!(env.cache.data().state_by_cache_id(2).unwrap().1.branches, 4);
    assert_eq!(env.cache.data().explored[&2][0].branches, 1);
}

#[test]
fn annotations_are_collected_in_order() {
    let cert = Certificate {
        program_hash: String::new(),
        annotations: vec![
            Annotation { pc: 2, entries: vec![1, 2] },
            Annotation { pc: 3, entries: vec![3] },
            Annotation { pc: 2, entries: vec![4] },
        ],
    };
    assert_eq!(certified_entries(&cert, 2), vec![1, 2, 4]);
    assert!(certified_entries(&cert, 9).is_empty());
}

#[test]
fn programs_start_with_their_context() {
    let ctx = context(ProgramKind::Xdp);
    let s = entry_state(&ctx, false, NumericDomain::Interval(0));
    assert_eq!(s.regs[1].ty, RegType::PtrToCtx);
    assert_eq!(s.regs[10].ty, RegType::PtrToStack { frame_level: 0 });
    assert_eq!(s.regs[2].ty, RegType::NotInit);
    assert!(s.bcf.is_none() && s.active_refs.is_empty() && !s.implicit_rcu_at_entry);
    assert_eq!((s.pc, s.frames.len(), s.rcu_depth), (0, 1, 0));
    let with_table = entry_state(&ctx, true, NumericDomain::Interval(0));
    assert!(with_table.bcf.unwrap().conds.is_empty());
}

#[test]
fn tracing_programs_start_in_a_critical_section() {
    for kind in [
        ProgramKind::Kprobe,
        ProgramKind::Tracepoint,
        ProgramKind::RawTracepoint,
        ProgramKind::RawTracepointWritable,
        ProgramKind::PerfEvent,
    ] {
        let s = entry_state(&context(kind), false, NumericDomain::Interval(0));
        assert_eq!((s.rcu_depth, s.implicit_rcu_at_entry), (1, true));
    }
    let s = entry_state(&context(ProgramKind::Tracing), false, NumericDomain::Interval(0));
    assert_eq!((s.rcu_depth, s.implicit_rcu_at_entry), (0, false));
}

#[test]
fn replacements_get_the_arguments_of_their_function() {
    let mut ctx = context(ProgramKind::SchedCls);
    ctx.freplace_arg_types = Some(vec![
        EntryArg::Scalar,
        EntryArg::TrustedPtrBtfId { struct_name: "__sk_buff", nullable: false },
        EntryArg::TrustedPtrBtfId { struct_name: "sock", nullable: true },
        EntryArg::BoundedScalar { lo: 0, hi: 1 },
        EntryArg::TrustedRefcountedTask { ref_id: 3 },
        EntryArg::Scalar,
    ]);
    let s = entry_state(&ctx, false, NumericDomain::Interval(0));
    let trusted = PtrFlags { trusted: true, user: false, percpu: false };
    assert_eq!(s.regs[1].ty, RegType::ScalarValue);
    assert_eq!(s.regs[2].ty, RegType::PtrToCtx);
    assert_eq!(s.regs[3].ty, RegType::PtrToBtfId { struct_name: "sock", flags: trusted, ref_id: None });
    assert_eq!(s.regs[4].ty, RegType::ScalarValue);
    assert_eq!(s.regs[5].ty, RegType::PtrToTask { ref_id: Some(3) });
    assert_eq!(s.regs[6].ty, RegType::NotInit);
    ctx.freplace_arg_types = Some(vec![]);
    assert_eq!(entry_state(&ctx, false, NumericDomain::Interval(0)).regs[1].ty, RegType::NotInit);
    // The context structure is that of the program's own kind.
    let arg = EntryArg::TrustedPtrBtfId { struct_name: "__sk_buff", nullable: false };
    assert_ne!(entry_arg_type(ProgramKind::Xdp, &arg), RegType::PtrToCtx);
}

#[test]
fn references_among_the_arguments_are_held() {
    let mut ctx = context(ProgramKind::StructOps);
    ctx.entry_args = Some(vec![
        EntryArg::TrustedRefcountedTask { ref_id: 4 },
        EntryArg::Scalar,
        EntryArg::TrustedRefcountedTask { ref_id: 2 },
        EntryArg::TrustedRefcountedTask { ref_id: 4 },
    ]);
    let s = entry_state(&ctx, false, NumericDomain::Interval(0));
    assert_eq!(s.active_refs, vec![4, 2]);
    assert_eq!(s.regs[1].ty, RegType::PtrToCtx);
}

#[test]
fn callbacks_get_a_number() {
    let s = exception_entry_state(NumericDomain::Interval(0), 12);
    assert_eq!((s.pc, s.regs[1].ty), (12, RegType::ScalarValue));
    assert_eq!(s.regs[10].ty, RegType::PtrToStack { frame_level: 0 });
}

#[test]
fn initial_domains() {
    let dbm = Dbm { matrix: 5, provenance: false };
    assert_eq!(make_initial_domain(DomainMode::Interval, dbm, true), NumericDomain::Interval(0));
    assert_eq!(make_initial_domain(DomainMode::Zone, dbm, false), NumericDomain::Zone(dbm));
    assert_eq!(
        make_initial_domain(DomainMode::Zone, dbm, true),
        NumericDomain::Zone(Dbm { matrix: 5, provenance: true })
    );
}

#[test]
fn the_oldest_states_give_the_matrices() {
    let mut explored: HashMap<usize, Vec<State>> = HashMap::new();
    let first = Dbm { matrix: 1, provenance: false };
    let second = Dbm { matrix: 2, provenance: false };
    explored.insert(0, vec![State::new(NumericDomain::Zone(first), 0), State::new(NumericDomain::Zone(second), 0)]);
    explored.insert(1, vec![]);
    explored.insert(2, vec![state(2)]);
    explored.insert(9, vec![state(9)]);
    assert_eq!(collect_dbms(&explored, 4), vec![first, Dbm::new(), Dbm::new(), Dbm::new()]);
}

#[test]
fn maps_without_type_information_are_let_through() {
    let mut ctx = context(ProgramKind::Kprobe);
    ctx.map_defs = vec![alivio::env::MapDef { name: String::from("m"), special_fields: None }];
    ctx.relocs = vec![
        alivio::env::Reloc { kind: alivio::env::RelocKind::MapPtr, map_idx: 0 },
        alivio::env::Reloc { kind: alivio::env::RelocKind::MapPtr, map_idx: 9 },
    ];
    assert!(check_map_prog_compatibility(&ctx).is_none());
}
