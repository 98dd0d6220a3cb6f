use alivio::ast::{ContextKind, Instr, Program, ProgramKind};
use alivio::cache::{sorted_down, CacheData, Patch, StateCache, StateMetrics};
use alivio::ctx_model::CtxTables;
use alivio::env::{ExecContext, InsnAux, VerifierEnv};
use alivio::machine::{Frame, NumericDomain, RegType, StackSlot, StackSlotKind, State};
use alivio::trace::{ev_hit_id, ev_id_map};
use alivio::pruning::{
    dampener_would_suppress, has_active_iterators, is_in_lineage, is_inf_loop_skip_pc,
    record_pruning_hit, record_pruning_misses, same_callsites, scan_candidates, strip_precision,
    would_add_new_state_base,
};

fn empty_tables() -> CtxTables {
    CtxTables {
        sk_buff: vec![],
        sk_buff_extended: vec![],
        flow_dissector_extended: vec![],
        xdp_md: vec![],
        xdp_md_devmap: vec![],
        sock_addr: vec![],
        sockopt: vec![],
        sk_lookup: vec![],
        sk_reuseport: vec![],
        sock_ops: vec![],
        sock: vec![],
        sk_msg_md: vec![],
        pt_regs: vec![],
        trace_iter_task: vec![],
        sk_buff_cb: (0, 0),
        sock_addr_user_ip6: (0, 0),
        sock_addr_msg_src_ip6: (0, 0),
    }
}

fn context() -> ExecContext {
    ExecContext {
        prog_kind: ProgramKind::Xdp,
        context_kind: ContextKind::XdpMd,
        attach_flavor: None,
        attach_subtype: None,
        entry_args: None,
        freplace_arg_types: None,
        btf_fields: vec![],
        maybe_null_args: vec![],
        tables: empty_tables(),
        map_defs: vec![],
        relocs: vec![],
        priv_stack_requested: false,
        test_state_freq: false,
    }
}

fn program(n: usize) -> Program {
    Program { instrs: vec![Instr::Alu; n], invalid_pcs: vec![] }
}

fn state(pc: usize) -> State {
    State::new(NumericDomain::Interval(0), pc)
}

fn finished(pc: usize) -> State {
    let mut s = state(pc);
    s.branches = 0;
    s
}

fn active(pc: usize) -> State {
    let mut s = state(pc);
    s.branches = 1;
    s
}

fn ids(data: &CacheData, pc: usize) -> Vec<Option<u32>> {
    data.explored.get(&pc).map(|v| v.iter().map(|s| s.cache_id).collect()).unwrap_or_default()
}

#[test]
fn checkpoints_get_numbers_and_leave_full_buckets() {
    let mut cache = StateCache::new();
    for _ in 0..3 {
        cache.record(state(5), 2);
    }
    assert_eq!(cache.record(state(6), 2), Some(3));
    assert_eq!(ids(cache.data(), 5), vec![Some(1), Some(2)]);
    assert_eq!(cache.data().evictions, 1);
    assert_eq!(cache.data().next_id, 4);
    // The evicted one is still found by its number.
    let (pc, s) = cache.data().state_by_cache_id(0).unwrap();
    assert_eq!((pc, s.cache_id, s.branches, s.dfs_paths), (5, Some(0), 1, 1));
    assert!(cache.data().state_by_cache_id(9).is_none());
}

#[test]
fn a_bound_of_zero_is_no_bound() {
    let mut cache = StateCache::new();
    for _ in 0..5 {
        cache.record(state(1), 0);
    }
    assert_eq!(cache.data().count(1), 5);
    assert_eq!(cache.data().evictions, 0);
}

#[test]
fn marks_reach_live_and_retired_states() {
    let mut cache = StateCache::new();
    cache.record(state(5), 1);
    cache.record(state(5), 1);
    let p = Patch { children_unsafe: Some(true), cleaned: None, branches: Some(7), dfs_paths: None };
    cache.patch(0, p);
    cache.patch(1, p);
    cache.patch(2, p);
    for id in 0..2 {
        let (_, s) = cache.data().state_by_cache_id(id).unwrap();
        assert!(s.children_unsafe);
        assert_eq!((s.branches, s.dfs_paths, s.cleaned), (7, 1, false));
    }
}

#[test]
fn lineages_survive_eviction() {
    let mut cache = StateCache::new();
    let a = cache.record(state(1), 1).unwrap();
    let mut child = state(1);
    child.parent_cache_id = Some(a);
    let b = cache.record(child, 1).unwrap();
    assert_eq!(cache.parent(b), Some(a));
    assert!(is_in_lineage(&cache, Some(b), a));
    assert!(is_in_lineage(&cache, Some(b), b));
    assert!(!is_in_lineage(&cache, Some(a), b));
    assert!(!is_in_lineage(&cache, None, a));
}

#[test]
fn callsites_are_compared() {
    let mut a = state(3);
    let mut b = state(3);
    assert!(same_callsites(&a, &b));
    a.frames.push(Frame { return_pc: 7, active_iterators: false, slots: vec![] });
    assert!(!same_callsites(&a, &b));
    b.frames.push(Frame { return_pc: 8, active_iterators: false, slots: vec![] });
    assert!(!same_callsites(&a, &b));
    b.frames[1].return_pc = 7;
    assert!(same_callsites(&a, &b));
    assert!(!has_active_iterators(&a));
    a.frames[1].active_iterators = true;
    assert!(has_active_iterators(&a));
}

#[test]
fn calls_are_no_endless_loops() {
    let prog = Program { instrs: vec![Instr::Call { helper: 1 }, Instr::MayGoto { target: 0 }], invalid_pcs: vec![] };
    assert!(is_inf_loop_skip_pc(&prog, 0));
    assert!(!is_inf_loop_skip_pc(&prog, 1));
    assert!(!is_inf_loop_skip_pc(&prog, 2));
}

#[test]
fn the_newest_covering_candidate_wins() {
    let states = vec![finished(4), finished(4), finished(4)];
    let out = scan_candidates(&states, &state(4), true, false, &vec![true, true, false]);
    assert_eq!(out.hit, Some(1));
    assert_eq!(out.misses, vec![2]);
    assert!(!out.saw_active);
}

#[test]
fn unfinished_and_marked_candidates_never_cover() {
    let mut marked = finished(4);
    marked.children_unsafe = true;
    let states = vec![finished(4), active(4), marked];
    let out = scan_candidates(&states, &state(4), true, false, &vec![false, true, true]);
    assert_eq!(out.hit, None);
    assert_eq!(out.misses, vec![2, 1, 0]);
    assert!(out.saw_active);
}

#[test]
fn an_unfinished_candidate_ends_the_counting() {
    let states = vec![finished(4), active(4), finished(4)];
    let out = scan_candidates(&states, &state(4), true, true, &vec![false, false, false]);
    assert_eq!(out.misses, vec![2]);
    let none = scan_candidates(&states, &state(4), false, false, &vec![false, false, false]);
    assert!(none.misses.is_empty());
}

#[test]
fn other_callsites_are_skipped() {
    let mut other = finished(4);
    other.frames[0].return_pc = 9;
    let mut other_active = active(4);
    other_active.frames[0].return_pc = 9;
    let states = vec![other, other_active];
    let out = scan_candidates(&states, &state(4), true, false, &vec![true, true]);
    assert_eq!(out.hit, None);
    assert!(out.misses.is_empty());
    assert!(!out.saw_active);
}

#[test]
fn checkpoint_thresholds() {
    let ctx = context();
    let prog = program(2);
    let mut env = VerifierEnv::new(&ctx, &prog, None, false, false);
    let mut s = state(0);
    let rows = [(1, 8, false, true), (2, 7, false, true), (2, 8, true, true), (20, 8, true, false), (2, 100, true, false)];
    for (jmps, insns, add, suppress) in rows {
        env.counters.jmps_processed = jmps;
        env.counters.insn_processed = insns;
        assert_eq!(would_add_new_state_base(&env, &s, 0), add);
        assert_eq!(dampener_would_suppress(&env, &s, 0), suppress);
    }
    env.counters.jmps_processed = 0;
    env.counters.insn_processed = 0;
    s.jmp_history_cnt = 40;
    assert!(!would_add_new_state_base(&env, &s, 0));
    s.jmp_history_cnt = 41;
    assert!(would_add_new_state_base(&env, &s, 0));
    assert!(!dampener_would_suppress(&env, &s, 0));
    s.jmp_history_cnt = 0;
    env.insn_aux[1].force_checkpoint = true;
    assert!(would_add_new_state_base(&env, &s, 1));
    assert!(!would_add_new_state_base(&env, &s, 99));
}

fn env_with<'a>(ctx: &'a ExecContext, n: usize) -> VerifierEnv<'a> {
    let prog = program(10);
    let mut env = VerifierEnv::new(ctx, &prog, None, false, false);
    for _ in 0..n {
        env.cache.record(state(4), 0);
    }
    env
}

fn score(env: &VerifierEnv, i: usize) -> StateMetrics {
    env.cache.data().metrics[&4][i]
}

#[test]
fn four_misses_evict() {
    let ctx = context();
    let mut env = env_with(&ctx, 3);
    for _ in 0..3 {
        record_pruning_misses(&mut env, 4, &vec![2, 0]);
    }
    assert_eq!(score(&env, 0), StateMetrics { hit_cnt: 0, miss_cnt: 3 });
    assert_eq!(score(&env, 1), StateMetrics { hit_cnt: 0, miss_cnt: 0 });
    assert_eq!(env.cache.data().count(4), 3);
    record_pruning_misses(&mut env, 4, &vec![2, 0]);
    assert_eq!(ids(env.cache.data(), 4), vec![Some(1)]);
    assert_eq!(score(&env, 0), StateMetrics { hit_cnt: 0, miss_cnt: 0 });
    assert!(env.cache.data().state_by_cache_id(0).is_some());
    assert!(env.cache.data().state_by_cache_id(2).is_some());
    // The survivor's place was noted anew.
    let (pc, s) = env.cache.data().state_by_cache_id(1).unwrap();
    assert_eq!((pc, s.cache_id), (4, Some(1)));
}

#[test]
fn misses_come_in_any_order() {
    let ctx = context();
    for order in [vec![0, 2, 3], vec![3, 2, 0], vec![2, 0, 3], vec![3, 0, 2]] {
        let mut env = env_with(&ctx, 5);
        env.cache.record(state(6), 0);
        record_pruning_hit(&mut env, 4, 2);
        for _ in 0..4 {
            record_pruning_misses(&mut env, 4, &order);
        }
        assert_eq!(ids(env.cache.data(), 4), vec![Some(1), Some(2), Some(4)]);
        assert_eq!(score(&env, 0), StateMetrics { hit_cnt: 0, miss_cnt: 0 });
        assert_eq!(score(&env, 1), StateMetrics { hit_cnt: 1, miss_cnt: 4 });
        assert_eq!(score(&env, 2), StateMetrics { hit_cnt: 0, miss_cnt: 0 });
        for id in 0..5u32 {
            let (pc, s) = env.cache.data().state_by_cache_id(id).unwrap();
            assert_eq!((pc, s.cache_id), (4, Some(id)));
        }
        assert_eq!(ids(env.cache.data(), 6), vec![Some(5)]);
        assert_eq!(env.cache.data().evictions, 0);
    }
}

#[test]
fn places_are_sorted_from_the_last_to_the_first() {
    assert_eq!(sorted_down(&vec![3, 9, 0, 4]), vec![9, 4, 3, 0]);
    assert_eq!(sorted_down(&vec![]), Vec::<usize>::new());
}

#[test]
fn hits_and_forced_checkpoints_make_up_for_misses() {
    let ctx = context();
    let mut env = env_with(&ctx, 1);
    record_pruning_hit(&mut env, 4, 0);
    record_pruning_hit(&mut env, 4, 5);
    assert_eq!(score(&env, 0), StateMetrics { hit_cnt: 1, miss_cnt: 0 });
    for _ in 0..6 {
        record_pruning_misses(&mut env, 4, &vec![0]);
    }
    assert_eq!(env.cache.data().count(4), 1);
    record_pruning_misses(&mut env, 4, &vec![0]);
    assert_eq!(env.cache.data().count(4), 0);

    let mut forced = env_with(&ctx, 1);
    forced.insn_aux[4].force_checkpoint = true;
    for _ in 0..64 {
        record_pruning_misses(&mut forced, 4, &vec![0]);
    }
    assert_eq!(forced.cache.data().count(4), 1);
    record_pruning_misses(&mut forced, 4, &vec![0]);
    assert_eq!(forced.cache.data().count(4), 0);
}

#[test]
fn misses_behind_the_end_are_ignored() {
    let ctx = context();
    let mut env = env_with(&ctx, 1);
    record_pruning_misses(&mut env, 4, &vec![7]);
    record_pruning_misses(&mut env, 8, &vec![0]);
    assert_eq!(score(&env, 0), StateMetrics { hit_cnt: 0, miss_cnt: 0 });
}

#[test]
fn precision_is_stripped_everywhere() {
    let mut s = state(1);
    s.regs[3].precise = true;
    s.frames[0].slots.push(StackSlot {
        off: -8,
        kind: StackSlotKind::Spill,
        reg_type: RegType::ScalarValue,
        scalar_id: Some(1),
        precise: true,
        bcf_expr: None,
    });
    let r = strip_precision(&s);
    assert!(!r.regs[3].precise);
    assert!(!r.frames[0].slots[0].precise);
    assert_eq!(r.frames[0].slots[0].scalar_id, Some(1));
    assert!(s.regs[3].precise);
}

#[test]
fn nothing_is_known_of_instructions_at_first() {
    let ctx = context();
    let env = VerifierEnv::new(&ctx, &program(3), None, true, true);
    assert_eq!(env.insn_aux.len(), 3);
    let aux: InsnAux = env.insn_aux[1];
    assert!(!aux.force_checkpoint && !aux.jmp_point && aux.live_regs == [false; 11]);
    assert!(env.kernel_faithful_alu && env.bcf_enabled && env.error.is_none());
}

#[test]
fn traces_name_candidates() {
    let ctx = context();
    let mut env = env_with(&ctx, 2);
    let mut third = state(4);
    third.regs[1].bounds.smin = -3;
    env.cache.record(third, 0);
    assert_eq!(ev_hit_id(&env, true, 4, 2), Some((Some(2), -3)));
    assert_eq!(ev_hit_id(&env, true, 4, 3), None);
    assert_eq!(ev_hit_id(&env, false, 4, 2), None);
    assert_eq!(
        ev_id_map(&env, true, 4, &vec![2, 9, 0]),
        vec![(2, (Some(2), -3)), (0, (Some(0), i64::MIN))]
    );
    assert!(ev_id_map(&env, false, 4, &vec![2]).is_empty());
}
