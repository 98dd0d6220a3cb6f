use alivio::ast::{CmpOp, Instr, Operand, Reg, Width};
use alivio::branch::{
    collect_linked_regs, followed_sides, is_worth_a_proof, record_side, BranchFacts,
};
use alivio::cache::StateCache;
use alivio::emit::{is_known, push_unless_known, unreachable_target_regs};
use alivio::env::{Breadcrumb, BundleKind, ProvedGoal, RefineEntry};
use alivio::machine::{NumericDomain, OffsetRange, RegType, StackSlot, StackSlotKind, State};
use alivio::record::{cmp_op_to_bcf_pair, immediate_value, record_path_cond_for_side, BranchSide};
use alivio::refine_map::{cut_pcs, map_target_regs, push_attempts, rung_ids, rung_shapes};
use alivio::replay::{
    begin_replay, list_reset_points, pick_at, recover_path, restart_symbolic, ResetPoint, Step,
};
use alivio::symbolic::{BcfTerm, PathCond, SymbolicState, BPF_AND, BPF_JEQ, BPF_JNE};
use alivio::unreachable::list_base_attempts;

fn state(pc: usize) -> State {
    State::new(NumericDomain::Interval(0), pc)
}

fn symbolic_state(scalars: &[Reg]) -> State {
    let mut s = state(3);
    s.bcf = Some(SymbolicState::new(false));
    for r in scalars {
        s.set_type(*r, RegType::ScalarValue);
    }
    s
}

fn side(left: Reg, op: CmpOp, code: u8, right: Operand) -> BranchSide {
    let bounds = state(0).regs[0].bounds;
    BranchSide { width: Width::W64, left, op, code, right, pc: 10, narrowed: None, pre_bounds: bounds }
}

fn jump(left: Reg, op: CmpOp, right: Operand, target: usize) -> Instr {
    Instr::If { width: Width::W64, left, op, right, target }
}

/// The term, the place, where the left operand was bound, and the constant of a
/// branch condition.
fn branch_of(c: PathCond) -> (usize, usize, Option<usize>, Option<u64>) {
    match c {
        PathCond::Branch { pred, pc, narrowed, lhs } => {
            (pred, pc, lhs.materialized_at, narrowed.map(|n| n.value))
        }
        PathCond::Range { .. } => panic!("a range"),
    }
}

#[test]
fn jump_codes_come_in_pairs() {
    assert_eq!(cmp_op_to_bcf_pair(CmpOp::Eq), Some((0x10, 0x50)));
    assert_eq!(cmp_op_to_bcf_pair(CmpOp::Ne), Some((0x50, 0x10)));
    assert_eq!(cmp_op_to_bcf_pair(CmpOp::UGt), Some((0x20, 0xb0)));
    assert_eq!(cmp_op_to_bcf_pair(CmpOp::UGe), Some((0x30, 0xa0)));
    assert_eq!(cmp_op_to_bcf_pair(CmpOp::ULt), Some((0xa0, 0x30)));
    assert_eq!(cmp_op_to_bcf_pair(CmpOp::ULe), Some((0xb0, 0x20)));
    assert_eq!(cmp_op_to_bcf_pair(CmpOp::SGt), Some((0x60, 0xd0)));
    assert_eq!(cmp_op_to_bcf_pair(CmpOp::SGe), Some((0x70, 0xc0)));
    assert_eq!(cmp_op_to_bcf_pair(CmpOp::SLt), Some((0xc0, 0x70)));
    assert_eq!(cmp_op_to_bcf_pair(CmpOp::SLe), Some((0xd0, 0x60)));
    assert_eq!(cmp_op_to_bcf_pair(CmpOp::Test), None);
}

#[test]
fn immediates_at_both_widths() {
    assert_eq!(immediate_value(-1, true), 0xffff_ffff);
    assert_eq!(immediate_value(-1, false), u64::MAX);
    assert_eq!(immediate_value(5, true), 5);
}

#[test]
fn a_comparison_is_recorded() {
    let mut s = symbolic_state(&[Reg::R1]);
    record_path_cond_for_side(&mut s, side(Reg::R1, CmpOp::Eq, BPF_JEQ, Operand::Imm(6)));
    let b = s.bcf.as_ref().unwrap();
    assert_eq!(b.terms.len(), 3);
    assert_eq!(b.terms[1], BcfTerm::Val { value: 6, jmp32: false });
    assert_eq!(b.terms[2], BcfTerm::Pred { op: BPF_JEQ, left: 0, right: 1, jmp32: false });
    // The range of the register comes first, then the branch; both bear its place.
    assert_eq!(b.conds.len(), 2);
    assert_eq!(b.conds[0], PathCond::Range { expr: 0, bounds: s.regs[1].bounds, pc: 10 });
    assert_eq!(branch_of(b.conds[1]), (2, 10, None, None));
    // The register stays bound to its term.
    record_path_cond_for_side(&mut s, side(Reg::R1, CmpOp::Ne, BPF_JNE, Operand::Imm(7)));
    let b = s.bcf.as_ref().unwrap();
    assert_eq!(b.terms.len(), 5);
    assert_eq!(b.terms[4], BcfTerm::Pred { op: BPF_JNE, left: 0, right: 3, jmp32: false });
    assert_eq!(b.conds.len(), 3);
    assert_eq!(branch_of(b.conds[2]), (4, 10, Some(10), None));
}

#[test]
fn ranges_are_recorded_once() {
    let mut s = symbolic_state(&[Reg::R1, Reg::R2]);
    s.regs[1].bounds.umax = 0xff;
    s.regs[2].bounds.umin = 3;
    record_path_cond_for_side(&mut s, side(Reg::R1, CmpOp::ULt, 0xa0, Operand::Reg(Reg::R2)));
    let b = s.bcf.as_ref().unwrap();
    assert_eq!(b.conds[0], PathCond::Range { expr: 0, bounds: s.regs[1].bounds, pc: 10 });
    assert_eq!(b.conds[1], PathCond::Range { expr: 1, bounds: s.regs[2].bounds, pc: 10 });
    assert_eq!(branch_of(b.conds[2]), (2, 10, None, None));
    // Neither range is recorded again, whatever the registers hold by then.
    s.regs[1].bounds.umax = 1;
    let mut later = side(Reg::R2, CmpOp::Eq, BPF_JEQ, Operand::Reg(Reg::R1));
    later.pc = 12;
    record_path_cond_for_side(&mut s, later);
    let b = s.bcf.as_ref().unwrap();
    assert_eq!(b.conds.len(), 4);
    assert_eq!(b.conds[3].pc(), 12);
    // A register that is compared with itself is read once.
    let mut same = symbolic_state(&[Reg::R1]);
    record_path_cond_for_side(&mut same, side(Reg::R1, CmpOp::Eq, BPF_JEQ, Operand::Reg(Reg::R1)));
    assert_eq!(same.bcf.as_ref().unwrap().conds.len(), 2);
}

#[test]
fn a_bit_test_is_compared_with_zero() {
    let mut s = symbolic_state(&[Reg::R1, Reg::R2]);
    record_path_cond_for_side(&mut s, side(Reg::R1, CmpOp::Test, BPF_JNE, Operand::Reg(Reg::R2)));
    let b = s.bcf.as_ref().unwrap();
    assert_eq!(b.terms[2], BcfTerm::Alu { op: BPF_AND, left: 0, right: 1, bits: 64 });
    assert_eq!(b.terms[4], BcfTerm::Pred { op: BPF_JNE, left: 2, right: 3, jmp32: false });
}

#[test]
fn only_numbers_are_recorded() {
    let mut ptr = symbolic_state(&[Reg::R1]);
    ptr.set_type(Reg::R2, RegType::OtherPtr);
    record_path_cond_for_side(&mut ptr, side(Reg::R1, CmpOp::Eq, BPF_JEQ, Operand::Reg(Reg::R2)));
    record_path_cond_for_side(&mut ptr, side(Reg::R2, CmpOp::Eq, BPF_JEQ, Operand::Imm(0)));
    record_path_cond_for_side(&mut ptr, side(Reg::R10, CmpOp::Eq, BPF_JEQ, Operand::Imm(0)));
    assert!(ptr.bcf.as_ref().unwrap().conds.is_empty());
    let mut plain = state(0);
    record_path_cond_for_side(&mut plain, side(Reg::R1, CmpOp::Eq, BPF_JEQ, Operand::Imm(0)));
    assert!(plain.bcf.is_none());
}

fn slot(off: i16, id: Option<u32>, expr: Option<usize>) -> StackSlot {
    StackSlot {
        off,
        kind: StackSlotKind::Spill,
        reg_type: RegType::ScalarValue,
        scalar_id: id,
        precise: false,
        bcf_expr: expr,
    }
}

#[test]
fn shared_terms_reach_the_slots_of_their_class() {
    let mut s = symbolic_state(&[Reg::R1]);
    s.bcf = Some(SymbolicState::new(true));
    s.regs[1].scalar_id = Some(5);
    s.frames[0].slots = vec![slot(-8, Some(5), None), slot(-16, Some(6), None), slot(-24, Some(5), Some(99))];
    record_path_cond_for_side(&mut s, side(Reg::R1, CmpOp::Eq, BPF_JEQ, Operand::Imm(6)));
    let exprs: Vec<Option<usize>> = s.frames[0].slots.iter().map(|x| x.bcf_expr).collect();
    assert_eq!(exprs, vec![Some(0), None, Some(99)]);
    // A known value is not shared.
    let mut k = symbolic_state(&[Reg::R1]);
    k.bcf = Some(SymbolicState::new(true));
    k.regs[1].scalar_id = Some(5);
    k.regs[1].bounds.const_val = Some(3);
    k.frames[0].slots = vec![slot(-8, Some(5), None)];
    record_path_cond_for_side(&mut k, side(Reg::R1, CmpOp::Eq, BPF_JEQ, Operand::Imm(6)));
    assert_eq!(k.frames[0].slots[0].bcf_expr, None);
}

#[test]
fn both_sides_of_a_jump() {
    let bounds = state(0).regs[0].bounds;
    let eq = jump(Reg::R1, CmpOp::Eq, Operand::Imm(4), 20);
    let mut taken = symbolic_state(&[Reg::R1]);
    record_side(&mut taken, &eq, 7, bounds, true);
    let c = taken.bcf.as_ref().unwrap().conds[1];
    assert_eq!(branch_of(c), (2, 7, None, Some(4)));
    let mut passed = symbolic_state(&[Reg::R1]);
    record_side(&mut passed, &eq, 7, bounds, false);
    assert_eq!(branch_of(passed.bcf.as_ref().unwrap().conds[1]), (2, 7, None, None));
    assert_eq!(
        passed.bcf.as_ref().unwrap().terms[2],
        BcfTerm::Pred { op: BPF_JNE, left: 0, right: 1, jmp32: false }
    );
    let test = jump(Reg::R1, CmpOp::Test, Operand::Imm(4), 20);
    let mut t = symbolic_state(&[Reg::R1]);
    record_side(&mut t, &test, 7, bounds, false);
    assert_eq!(
        t.bcf.as_ref().unwrap().terms[4],
        BcfTerm::Pred { op: BPF_JEQ, left: 2, right: 3, jmp32: false }
    );
}

#[test]
fn sides_that_are_followed() {
    let pcs = |v: Vec<State>| v.iter().map(|s| s.pc).collect::<Vec<usize>>();
    let facts = |replay, outcome, taken_empty, passed_empty| BranchFacts { replay, outcome, taken_empty, passed_empty };
    assert_eq!(pcs(followed_sides(state(20), state(8), facts(true, Some(true), true, true))), vec![20, 8]);
    assert_eq!(pcs(followed_sides(state(20), state(8), facts(false, Some(true), false, false))), vec![20]);
    assert_eq!(pcs(followed_sides(state(20), state(8), facts(false, Some(false), false, false))), vec![8]);
    assert_eq!(pcs(followed_sides(state(20), state(8), facts(false, None, false, false))), vec![8, 20]);
    assert_eq!(pcs(followed_sides(state(20), state(8), facts(false, None, true, false))), vec![8]);
    assert_eq!(pcs(followed_sides(state(20), state(8), facts(false, None, true, true))), Vec::<usize>::new());
    assert!(is_worth_a_proof(true, facts(false, Some(true), false, false), false));
    assert!(!is_worth_a_proof(true, facts(false, Some(true), false, false), true));
    assert!(is_worth_a_proof(true, facts(false, None, true, false), true));
    assert!(!is_worth_a_proof(false, facts(false, None, true, false), true));
    assert!(!is_worth_a_proof(true, facts(true, None, true, false), true));
}

#[test]
fn equal_registers_are_linked() {
    let mut s = symbolic_state(&[Reg::R1, Reg::R2, Reg::R3, Reg::R4]);
    s.regs[1].scalar_id = Some(5);
    s.regs[3].scalar_id = Some(5);
    s.regs[2].scalar_id = Some(6);
    assert_eq!(collect_linked_regs(&s, Reg::R1, &Operand::Imm(0)), vec![Reg::R1, Reg::R3]);
    assert_eq!(collect_linked_regs(&s, Reg::R1, &Operand::Reg(Reg::R2)), vec![Reg::R2, Reg::R1, Reg::R3]);
    assert_eq!(collect_linked_regs(&s, Reg::R1, &Operand::Reg(Reg::R3)), vec![Reg::R1, Reg::R3]);
    assert!(collect_linked_regs(&s, Reg::R4, &Operand::Imm(0)).is_empty());
}

fn crumb(pc: usize, instr: Instr, parent: Option<usize>) -> Breadcrumb {
    Breadcrumb { pc, instr, parent_idx: parent, num_frames: 1, linked: vec![] }
}

#[test]
fn paths_are_recovered_in_order() {
    let h = vec![
        crumb(0, Instr::Alu, None),
        crumb(1, Instr::Alu, Some(0)),
        crumb(9, Instr::Alu, Some(0)),
        crumb(2, Instr::Alu, Some(1)),
    ];
    let pcs = |p: Option<Vec<Step>>| p.map(|v| v.iter().map(|s| s.pc).collect::<Vec<usize>>());
    assert_eq!(pcs(recover_path(&h, 3, None)), Some(vec![0, 1, 2]));
    assert_eq!(pcs(recover_path(&h, 3, Some(0))), Some(vec![1, 2]));
    assert_eq!(pcs(recover_path(&h, 3, Some(3))), Some(vec![]));
    assert_eq!(pcs(recover_path(&h, 3, Some(2))), Some(vec![0, 1, 2]));
    assert_eq!(pcs(recover_path(&h, 7, None)), None);
    // A history that goes in circles runs out of budget.
    let circle = vec![crumb(0, Instr::Alu, Some(0))];
    assert_eq!(pcs(recover_path(&circle, 0, None)), None);
}

#[test]
fn reset_points_of_a_path() {
    let step = |pc, instr| Step { idx: pc, pc, instr };
    let path = vec![
        step(0, jump(Reg::R1, CmpOp::Eq, Operand::Imm(0), 5)),
        step(1, Instr::Call { helper: 1 }),
        step(2, Instr::Alu),
        step(3, jump(Reg::R1, CmpOp::Eq, Operand::Imm(0), 5)),
    ];
    let p = |at, before| ResetPoint { at, before };
    assert_eq!(
        list_reset_points(&path, 3),
        vec![p(None, false), p(Some(0), false), p(Some(0), true), p(Some(2), true)]
    );
    assert_eq!(list_reset_points(&path, 4).len(), 6);
}

#[test]
fn a_replay_starts_over() {
    let mut s = symbolic_state(&[Reg::R1]);
    record_path_cond_for_side(&mut s, side(Reg::R1, CmpOp::Eq, BPF_JEQ, Operand::Imm(6)));
    s.frames[0].slots = vec![slot(-8, None, Some(0))];
    restart_symbolic(&mut s, true);
    assert_eq!(s.frames[0].slots[0].bcf_expr, None);
    let b = s.bcf.as_ref().unwrap();
    assert!(b.terms.is_empty() && b.conds.is_empty() && b.share_slot_vars);
    restart_symbolic(&mut s, false);
    assert!(s.bcf.as_ref().unwrap().share_slot_vars);
}

#[test]
fn the_creating_branch_comes_first() {
    let s = symbolic_state(&[Reg::R1]);
    let creating = Some(Step { idx: 0, pc: 4, instr: jump(Reg::R1, CmpOp::Eq, Operand::Imm(0), 9) });
    let taken = begin_replay(&s, &creating, 9, false);
    assert_eq!(
        taken.bcf.as_ref().unwrap().terms[2],
        BcfTerm::Pred { op: BPF_JEQ, left: 0, right: 1, jmp32: false }
    );
    let passed = begin_replay(&s, &creating, 5, false);
    assert_eq!(
        passed.bcf.as_ref().unwrap().terms[2],
        BcfTerm::Pred { op: BPF_JNE, left: 0, right: 1, jmp32: false }
    );
    assert!(begin_replay(&s, &None, 5, false).bcf.as_ref().unwrap().conds.is_empty());
}

#[test]
fn the_first_successor_at_a_place_is_picked() {
    let mut second = state(4);
    second.dfs_depth = 2;
    let picked = pick_at(vec![state(3), second, state(4)], 4).unwrap();
    assert_eq!(picked.dfs_depth, 2);
    assert!(pick_at(vec![state(3)], 4).is_none());
}

#[test]
fn targets_of_a_proof() {
    let mut s = state(0);
    s.set_type(Reg::R1, RegType::ScalarValue);
    s.set_type(Reg::R2, RegType::OtherPtr);
    s.set_type(Reg::R3, RegType::OtherPtr);
    s.regs[3].ptr_offset = Some(OffsetRange { min: 0, max: 8 });
    s.set_type(Reg::R4, RegType::OtherPtr);
    s.regs[4].ptr_offset = Some(OffsetRange { min: 8, max: 8 });
    assert_eq!(unreachable_target_regs(&s), vec![Reg::R1, Reg::R3]);
    s.domain = NumericDomain::Zone(alivio::machine::Dbm::new());
    assert_eq!(unreachable_target_regs(&s), vec![Reg::R1]);
    s.domain = NumericDomain::Interval(0);
    assert_eq!(map_target_regs(&s, Reg::R3, Some(Reg::R1)), vec![Reg::R3, Reg::R1]);
    s.regs[1].fixed = Some(4);
    assert_eq!(map_target_regs(&s, Reg::R3, Some(Reg::R1)), vec![Reg::R3]);
    assert!(map_target_regs(&s, Reg::R4, None).is_empty());
}

fn goal(hash: u64) -> ProvedGoal {
    ProvedGoal { cond_hash: hash, goal_root: 0, exprs: vec![], proof_bytes: vec![] }
}

fn hashes(b: &Vec<RefineEntry>) -> Vec<u64> {
    b.iter().map(|e| e.goal.cond_hash).collect()
}

#[test]
fn bundles_hold_each_hash_once() {
    let mut b: Vec<RefineEntry> = vec![];
    push_unless_known(&mut b, goal(1), BundleKind::Unreachable);
    push_unless_known(&mut b, goal(2), BundleKind::Refine);
    push_unless_known(&mut b, goal(1), BundleKind::Refine);
    assert_eq!(hashes(&b), vec![1, 2]);
    assert_eq!(b[0].kind, BundleKind::Unreachable);
    assert!(is_known(&b, 2) && !is_known(&b, 3));
    // The goal of the live state is added in any case, those of replays are not.
    push_attempts(&mut b, Some(goal(2)), vec![goal(2), goal(3), goal(3)]);
    assert_eq!(hashes(&b), vec![1, 2, 2, 3]);
}

#[test]
fn ladders_and_cuts() {
    let mut cache = StateCache::new();
    let mut parent: Option<u32> = None;
    for i in 0..20usize {
        let mut s = state(30 - (i % 3));
        s.parent_cache_id = parent;
        parent = cache.record(s, 0);
    }
    // Twelve from the base upwards, then the live ancestors down to the base.
    let rungs = rung_ids(&cache, 15, Some(17));
    let mut expected: Vec<u32> = (4..=15).rev().collect();
    expected.push(17);
    expected.push(16);
    assert_eq!(rungs, expected);
    assert_eq!(rung_ids(&cache, 1, None), vec![1, 0]);
    assert_eq!(cut_pcs(&cache, &rungs), vec![28, 29, 30]);
    assert_eq!(cut_pcs(&cache, &vec![0, 99]), vec![30]);
    assert_eq!(rung_shapes(true).len(), 8);
    let later = rung_shapes(false);
    assert_eq!(later.len(), 6);
    assert!(later.iter().all(|s| s.share_slot_vars));
    assert_eq!(later[5].reset_at_crossing, Some(4));
}

#[test]
fn forms_at_the_base() {
    assert_eq!(list_base_attempts(Some(3), None).len(), 9);
    assert_eq!(list_base_attempts(None, None).len(), 6);
}
