//! Drives the propagation engine through the table-backed environment, so
//! the closure computation is observed without a full liveness environment.

use reftypes::analysis_reftypes::core_reftypes_analysis;
use reftypes::data_structures::{
    AnalysisError, InstPoint, MoveInfo, MoveInfoElem, PointKind, RangeId, Reg, RegClass, RegKind,
    VirtualReg,
};
use reftypes::sparse_set::SparseSet;
use reftypes::table_analysis::TableReftypeAnalysis;

const REF_CLASS: RegClass = RegClass::I64;

fn vreg(index: usize) -> VirtualReg {
    VirtualReg { class: REF_CLASS, index }
}

fn vreg_as_reg(index: usize) -> Reg {
    Reg { class: REF_CLASS, kind: RegKind::Virtual, index }
}

fn mv(dst: Reg, src: Reg, iix: usize) -> MoveInfoElem {
    MoveInfoElem { dst, src, iix }
}

fn use_point(iix: usize) -> InstPoint {
    InstPoint { iix, kind: PointKind::Use }
}

fn def_point(iix: usize) -> InstPoint {
    InstPoint { iix, kind: PointKind::Def }
}

/// An environment where virtual register `i` maps to virtual range `i` at
/// every point a test mentions.
fn table_env(n: usize, points: &[InstPoint]) -> TableReftypeAnalysis {
    let mut locate_table = Vec::new();
    let mut vreg_table = Vec::new();
    for i in 0..n {
        for p in points {
            locate_table.push((*p, vreg_as_reg(i), RangeId::Virtual(i)));
        }
        vreg_table.push((vreg(i), RangeId::Virtual(i)));
    }
    TableReftypeAnalysis {
        locate_table,
        vreg_table,
        num_real: 0,
        num_virtual: n,
        marked_ids: SparseSet::new(),
    }
}

#[test]
fn core_propagates_along_a_chain() {
    let points = [use_point(2), def_point(2), use_point(4), def_point(4)];
    let mut env = table_env(4, &points);
    let moves = MoveInfo {
        moves: vec![
            mv(vreg_as_reg(1), vreg_as_reg(0), 2),
            mv(vreg_as_reg(2), vreg_as_reg(1), 4),
        ],
    };
    let r = core_reftypes_analysis(&mut env, &moves, REF_CLASS, &vec![vreg(0)]);
    assert!(r.is_ok());
    assert!(env.marked_ids.contains(RangeId::Virtual(0)));
    assert!(env.marked_ids.contains(RangeId::Virtual(1)));
    assert!(env.marked_ids.contains(RangeId::Virtual(2)));
    assert!(!env.marked_ids.contains(RangeId::Virtual(3)));
    assert_eq!(env.marked_ids.len(), 3);
}

#[test]
fn core_visits_a_diamond_once_and_marks_it() {
    // 0 -> 1 and 0 -> 2 and both 1 and 2 -> 3: two paths into range 3.
    let points = [
        use_point(1),
        def_point(1),
        use_point(2),
        def_point(2),
        use_point(3),
        def_point(3),
        use_point(4),
        def_point(4),
    ];
    let mut env = table_env(5, &points);
    let moves = MoveInfo {
        moves: vec![
            mv(vreg_as_reg(1), vreg_as_reg(0), 1),
            mv(vreg_as_reg(2), vreg_as_reg(0), 2),
            mv(vreg_as_reg(3), vreg_as_reg(1), 3),
            mv(vreg_as_reg(3), vreg_as_reg(2), 4),
        ],
    };
    let r = core_reftypes_analysis(&mut env, &moves, REF_CLASS, &vec![vreg(0)]);
    assert!(r.is_ok());
    assert_eq!(env.marked_ids.len(), 4);
    assert!(!env.marked_ids.contains(RangeId::Virtual(4)));
}

#[test]
fn core_reports_a_missing_row_as_fatal() {
    // The move at instruction 8 has no table row for its endpoints.
    let points = [use_point(2), def_point(2)];
    let mut env = table_env(2, &points);
    let moves = MoveInfo { moves: vec![mv(vreg_as_reg(1), vreg_as_reg(0), 8)] };
    let r = core_reftypes_analysis(&mut env, &moves, REF_CLASS, &vec![vreg(0)]);
    assert_eq!(r, Err(AnalysisError::NoCoveringRange));
    assert_eq!(env.marked_ids.len(), 0);
}

#[test]
fn core_seeds_come_from_every_matching_table_row() {
    // Seed register 0 is associated with two identities.
    let mut env = table_env(3, &[]);
    env.vreg_table.push((vreg(0), RangeId::Virtual(2)));
    let moves = MoveInfo { moves: Vec::new() };
    let r = core_reftypes_analysis(&mut env, &moves, REF_CLASS, &vec![vreg(0)]);
    assert!(r.is_ok());
    assert!(env.marked_ids.contains(RangeId::Virtual(0)));
    assert!(env.marked_ids.contains(RangeId::Virtual(2)));
    assert_eq!(env.marked_ids.len(), 2);
}
