use reftypes::analysis_reftypes::{do_reftypes_analysis, BacktrackingReftypeAnalysis};
use reftypes::data_structures::{
    AnalysisError, InstPoint, MoveInfo, MoveInfoElem, PointKind, RangeFrag, RealRange, Reg,
    RegClass, RegKind, RegToRangesMaps, VirtualRange, VirtualReg,
};

const REF_CLASS: RegClass = RegClass::I64;

fn frag(first_iix: usize, last_iix: usize) -> RangeFrag {
    RangeFrag {
        first: InstPoint { iix: first_iix, kind: PointKind::Use },
        last: InstPoint { iix: last_iix, kind: PointKind::Def },
    }
}

fn vreg(index: usize) -> VirtualReg {
    VirtualReg { class: REF_CLASS, index }
}

fn vreg_as_reg(index: usize) -> Reg {
    Reg { class: REF_CLASS, kind: RegKind::Virtual, index }
}

fn reg_of_class(class: RegClass, index: usize) -> Reg {
    Reg { class, kind: RegKind::Virtual, index }
}

fn rreg(index: usize) -> Reg {
    Reg { class: REF_CLASS, kind: RegKind::Real, index }
}

fn mv(dst: Reg, src: Reg, iix: usize) -> MoveInfoElem {
    MoveInfoElem { dst, src, iix }
}

/// An environment of `n` virtual ranges, each covering instructions 0 to 10,
/// with virtual register `i` owning exactly range `i`.  No real ranges.
fn virtual_env(n: usize) -> BacktrackingReftypeAnalysis {
    let mut vlr_env = Vec::new();
    let mut vmap = Vec::new();
    for i in 0..n {
        vlr_env.push(VirtualRange { sorted_frags: vec![frag(0, 10)], is_ref: false });
        vmap.push(vec![i]);
    }
    BacktrackingReftypeAnalysis {
        rlr_env: Vec::new(),
        vlr_env,
        frag_env: Vec::new(),
        reg_to_ranges_maps: RegToRangesMaps {
            rreg_to_rlrs_map: Vec::new(),
            vreg_to_vlrs_map: vmap,
        },
    }
}

fn virtual_flags(env: &BacktrackingReftypeAnalysis) -> Vec<bool> {
    env.vlr_env.iter().map(|vr| vr.is_ref).collect()
}

#[test]
fn chain_of_two_moves_marks_all_three_ranges() {
    // The concrete scenario: v2 := v1 then v3 := v2, seeding v1, with an
    // unrelated v4 (here indices 0..3).
    let mut env = virtual_env(4);
    let moves = MoveInfo {
        moves: vec![
            mv(vreg_as_reg(1), vreg_as_reg(0), 2),
            mv(vreg_as_reg(2), vreg_as_reg(1), 4),
        ],
    };
    let r = do_reftypes_analysis(&mut env, &moves, REF_CLASS, &vec![vreg(0)]);
    assert!(r.is_ok());
    assert_eq!(virtual_flags(&env), vec![true, true, true, false]);
}

#[test]
fn fan_out_marks_all_three_destinations() {
    let mut env = virtual_env(5);
    let moves = MoveInfo {
        moves: vec![
            mv(vreg_as_reg(1), vreg_as_reg(0), 1),
            mv(vreg_as_reg(2), vreg_as_reg(0), 3),
            mv(vreg_as_reg(3), vreg_as_reg(0), 5),
        ],
    };
    let r = do_reftypes_analysis(&mut env, &moves, REF_CLASS, &vec![vreg(0)]);
    assert!(r.is_ok());
    assert_eq!(virtual_flags(&env), vec![true, true, true, true, false]);
}

#[test]
fn no_moves_marks_exactly_the_seed_ranges() {
    let mut env = virtual_env(4);
    let moves = MoveInfo { moves: Vec::new() };
    let r = do_reftypes_analysis(&mut env, &moves, REF_CLASS, &vec![vreg(0), vreg(2)]);
    assert!(r.is_ok());
    assert_eq!(virtual_flags(&env), vec![true, false, true, false]);
}

#[test]
fn move_of_another_class_contributes_no_edge() {
    // A float copy between registers 2 and 3 must not spread the taint,
    // even though those registers own ranges like the seeded one does.
    let mut env = virtual_env(4);
    let moves = MoveInfo {
        moves: vec![mv(reg_of_class(RegClass::F32, 3), reg_of_class(RegClass::F32, 2), 4)],
    };
    let r = do_reftypes_analysis(&mut env, &moves, REF_CLASS, &vec![vreg(0)]);
    assert!(r.is_ok());
    assert_eq!(virtual_flags(&env), vec![true, false, false, false]);
}

#[test]
fn isolated_range_is_never_marked() {
    let mut env = virtual_env(3);
    let moves = MoveInfo { moves: vec![mv(vreg_as_reg(1), vreg_as_reg(0), 2)] };
    let r = do_reftypes_analysis(&mut env, &moves, REF_CLASS, &vec![vreg(0)]);
    assert!(r.is_ok());
    assert_eq!(virtual_flags(&env), vec![true, true, false]);
}

#[test]
fn running_twice_marks_the_same_ranges() {
    let mut env = virtual_env(4);
    let moves = MoveInfo {
        moves: vec![
            mv(vreg_as_reg(1), vreg_as_reg(0), 2),
            mv(vreg_as_reg(2), vreg_as_reg(1), 4),
        ],
    };
    let seeds = vec![vreg(0)];
    let r1 = do_reftypes_analysis(&mut env, &moves, REF_CLASS, &seeds);
    assert!(r1.is_ok());
    let after_first = virtual_flags(&env);
    let r2 = do_reftypes_analysis(&mut env, &moves, REF_CLASS, &seeds);
    assert!(r2.is_ok());
    assert_eq!(virtual_flags(&env), after_first);
    assert_eq!(after_first, vec![true, true, true, false]);
}

#[test]
fn self_move_is_harmless() {
    let mut env = virtual_env(2);
    let moves = MoveInfo { moves: vec![mv(vreg_as_reg(0), vreg_as_reg(0), 2)] };
    let r = do_reftypes_analysis(&mut env, &moves, REF_CLASS, &vec![vreg(0)]);
    assert!(r.is_ok());
    assert_eq!(virtual_flags(&env), vec![true, false]);
}

#[test]
fn seed_register_with_several_ranges_marks_them_all() {
    // Virtual register 0 participates in ranges 0 and 1 (say across blocks).
    let mut env = virtual_env(3);
    env.reg_to_ranges_maps.vreg_to_vlrs_map = vec![vec![0, 1], vec![2]];
    let moves = MoveInfo { moves: Vec::new() };
    let r = do_reftypes_analysis(&mut env, &moves, REF_CLASS, &vec![vreg(0)]);
    assert!(r.is_ok());
    assert_eq!(virtual_flags(&env), vec![true, true, false]);
}

#[test]
fn taint_flows_into_a_real_range() {
    // One real range for hardware register 0, live over the whole function,
    // with its fragment held in the shared fragment environment.
    let mut env = virtual_env(2);
    env.frag_env = vec![frag(0, 10)];
    env.rlr_env = vec![RealRange { sorted_frags: vec![0], is_ref: false }];
    env.reg_to_ranges_maps.rreg_to_rlrs_map = vec![vec![0]];
    let moves = MoveInfo { moves: vec![mv(rreg(0), vreg_as_reg(0), 3)] };
    let r = do_reftypes_analysis(&mut env, &moves, REF_CLASS, &vec![vreg(0)]);
    assert!(r.is_ok());
    assert!(env.rlr_env[0].is_ref);
    assert_eq!(virtual_flags(&env), vec![true, false]);
}

#[test]
fn move_outside_every_range_is_a_fatal_inconsistency() {
    // Range 0 covers only instructions 0 to 3, but a move at instruction 7
    // references its register: no covering range exists.
    let mut env = virtual_env(2);
    env.vlr_env[0].sorted_frags = vec![frag(0, 3)];
    let moves = MoveInfo { moves: vec![mv(vreg_as_reg(1), vreg_as_reg(0), 7)] };
    let r = do_reftypes_analysis(&mut env, &moves, REF_CLASS, &vec![vreg(0)]);
    assert_eq!(r, Err(AnalysisError::NoCoveringRange));
    // a fatal stop marks nothing at all
    assert_eq!(virtual_flags(&env), vec![false, false]);
}

#[test]
fn unknown_register_is_a_fatal_inconsistency() {
    // A move references virtual register 5, which owns no range at all.
    let mut env = virtual_env(2);
    let moves = MoveInfo { moves: vec![mv(vreg_as_reg(1), vreg_as_reg(5), 2)] };
    let r = do_reftypes_analysis(&mut env, &moves, REF_CLASS, &vec![vreg(0)]);
    assert_eq!(r, Err(AnalysisError::NoCoveringRange));
    assert_eq!(virtual_flags(&env), vec![false, false]);
}

#[test]
fn move_with_mismatched_classes_is_rejected() {
    let mut env = virtual_env(2);
    let moves = MoveInfo {
        moves: vec![mv(reg_of_class(RegClass::F64, 1), vreg_as_reg(0), 2)],
    };
    let r = do_reftypes_analysis(&mut env, &moves, REF_CLASS, &vec![vreg(0)]);
    assert_eq!(r, Err(AnalysisError::MoveClassMismatch));
    assert_eq!(virtual_flags(&env), vec![false, false]);
}

#[test]
fn seed_of_another_class_is_rejected() {
    let mut env = virtual_env(2);
    let moves = MoveInfo { moves: Vec::new() };
    let bad_seed = VirtualReg { class: RegClass::F64, index: 0 };
    let r = do_reftypes_analysis(&mut env, &moves, REF_CLASS, &vec![bad_seed]);
    assert_eq!(r, Err(AnalysisError::SeedClassMismatch));
    assert_eq!(virtual_flags(&env), vec![false, false]);
}

#[test]
fn taint_flows_through_a_real_range_back_to_virtual() {
    // v0 -> r0 -> v1: the real range relays the taint.
    let mut env = virtual_env(3);
    env.frag_env = vec![frag(0, 10)];
    env.rlr_env = vec![RealRange { sorted_frags: vec![0], is_ref: false }];
    env.reg_to_ranges_maps.rreg_to_rlrs_map = vec![vec![0]];
    let moves = MoveInfo {
        moves: vec![mv(rreg(0), vreg_as_reg(0), 2), mv(vreg_as_reg(1), rreg(0), 4)],
    };
    let r = do_reftypes_analysis(&mut env, &moves, REF_CLASS, &vec![vreg(0)]);
    assert!(r.is_ok());
    assert!(env.rlr_env[0].is_ref);
    assert_eq!(virtual_flags(&env), vec![true, true, false]);
}
