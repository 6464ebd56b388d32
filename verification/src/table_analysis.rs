//! A lightweight environment for the capability interface, backed by explicit
//! in-memory tables.  It lets the propagation engine be driven and observed
//! without constructing a full liveness environment.

use vstd::prelude::*;

use crate::analysis_reftypes::ReftypeAnalysis;
use crate::data_structures::{id_within, AnalysisError, InstPoint, RangeId, Reg, VirtualReg};
use crate::sparse_set::SparseSet;

verus! {

/// The first row from position `k` on that names `reg` at `pt`.
pub open spec fn table_locate_from(
    rows: Seq<(InstPoint, Reg, RangeId)>,
    k: int,
    pt: InstPoint,
    reg: Reg,
) -> Option<RangeId>
    decreases rows.len() - k,
{
    if k < 0 || k >= rows.len() {
        None
    } else if rows[k].0 == pt && rows[k].1 == reg {
        Some(rows[k].2)
    } else {
        table_locate_from(rows, k + 1, pt, reg)
    }
}

/// Every identity a seed table associates with `vreg`.
pub open spec fn table_ranges_of(rows: Seq<(VirtualReg, RangeId)>, vreg: VirtualReg) -> Set<
    RangeId,
> {
    Set::new(
        |id: RangeId|
            exists|k: int| 0 <= k < rows.len() && (#[trigger] rows[k]) == (vreg, id),
    )
}

/// A located identity comes from some row of the table.
proof fn lemma_table_locate_from_in(
    rows: Seq<(InstPoint, Reg, RangeId)>,
    k: int,
    pt: InstPoint,
    reg: Reg,
)
    ensures
        (match table_locate_from(rows, k, pt, reg) {
            Some(id) => exists|t: int| k <= t < rows.len() && (#[trigger] rows[t]).2 == id,
            None => true,
        }),
    decreases rows.len() - k,
{
    if k < 0 || k >= rows.len() {
    } else if rows[k].0 == pt && rows[k].1 == reg {
        assert(table_locate_from(rows, k, pt, reg) == Some(rows[k].2));
    } else {
        lemma_table_locate_from_in(rows, k + 1, pt, reg);
    }
}

/// An environment whose answers are looked up in plain tables: a row of
/// `locate_table` says which identity covers a register at a point, a row of
/// `vreg_table` associates a seed register with one of its identities, and
/// `marked_ids` collects what the analysis has marked.
pub struct TableReftypeAnalysis {
    pub locate_table: Vec<(InstPoint, Reg, RangeId)>,
    pub vreg_table: Vec<(VirtualReg, RangeId)>,
    pub num_real: usize,
    pub num_virtual: usize,
    pub marked_ids: SparseSet,
}

impl ReftypeAnalysis for TableReftypeAnalysis {
    open spec fn inv(self) -> bool {
        &&& self.marked_ids.inv()
        &&& forall|k: int|
            0 <= k < self.locate_table@.len() ==> id_within(
                (#[trigger] self.locate_table@[k]).2,
                self.num_real,
                self.num_virtual,
            )
        &&& forall|k: int|
            0 <= k < self.vreg_table@.len() ==> id_within(
                (#[trigger] self.vreg_table@[k]).1,
                self.num_real,
                self.num_virtual,
            )
    }

    open spec fn num_real_ranges(self) -> usize {
        self.num_real
    }

    open spec fn num_virtual_ranges(self) -> usize {
        self.num_virtual
    }

    open spec fn locate_spec(self, pt: InstPoint, reg: Reg) -> Option<RangeId> {
        table_locate_from(self.locate_table@, 0, pt, reg)
    }

    open spec fn ranges_of(self, vreg: VirtualReg) -> Set<RangeId> {
        table_ranges_of(self.vreg_table@, vreg)
    }

    open spec fn marked(self) -> Set<RangeId> {
        self.marked_ids@
    }

    open spec fn same_structure(self, other: Self) -> bool {
        self.locate_table@ == other.locate_table@ && self.vreg_table@ == other.vreg_table@
            && self.num_real == other.num_real && self.num_virtual == other.num_virtual
            && (self.marked_ids.inv() == other.marked_ids.inv())
    }

    proof fn lemma_same_structure_refl(self) {
    }

    proof fn lemma_same_structure_trans(a: Self, b: Self, c: Self) {
    }

    proof fn lemma_same_structure_model(a: Self, b: Self) {
    }

    proof fn lemma_model_in_bounds(self) {
        assert forall|pt: InstPoint, reg: Reg|
            (#[trigger] self.locate_spec(pt, reg)) is Some implies id_within(
            self.locate_spec(pt, reg)->Some_0,
            self.num_real_ranges(),
            self.num_virtual_ranges(),
        ) by {
            lemma_table_locate_from_in(self.locate_table@, 0, pt, reg);
            let t = choose|t: int|
                0 <= t < self.locate_table@.len() && (#[trigger] self.locate_table@[t]).2
                    == self.locate_spec(pt, reg)->Some_0;
            assert(id_within(self.locate_table@[t].2, self.num_real, self.num_virtual));
        };
        assert forall|vreg: VirtualReg, id: RangeId|
            #[trigger] self.ranges_of(vreg).contains(id) implies id_within(
            id,
            self.num_real_ranges(),
            self.num_virtual_ranges(),
        ) by {
            let k = choose|k: int|
                0 <= k < self.vreg_table@.len() && (#[trigger] self.vreg_table@[k]) == (vreg, id);
            assert(id_within(self.vreg_table@[k].1, self.num_real, self.num_virtual));
        };
    }

    fn find_range_id_for_reg(&self, pt: InstPoint, reg: Reg) -> (r: Result<RangeId, AnalysisError>)
    {
        let n = self.locate_table.len();
        let mut k: usize = 0;
        while k < n
            invariant
                n == self.locate_table@.len(),
                0 <= k <= n,
                table_locate_from(self.locate_table@, k as int, pt, reg) == table_locate_from(
                    self.locate_table@,
                    0,
                    pt,
                    reg,
                ),
            decreases n - k,
        {
            let row = self.locate_table[k];
            if row.0 == pt && row.1 == reg {
                proof {
                    assert(table_locate_from(self.locate_table@, k as int, pt, reg) == Some(row.2));
                }
                return Ok(row.2);
            }
            k = k + 1;
        }
        proof {
            assert(table_locate_from(self.locate_table@, n as int, pt, reg) is None);
        }
        Err(AnalysisError::NoCoveringRange)
    }

    fn insert_reffy_ranges(&self, vreg: VirtualReg, set: &mut SparseSet) {
        let n = self.vreg_table.len();
        let mut k: usize = 0;
        while k < n
            invariant
                old(set).inv(),
                set.inv(),
                n == self.vreg_table@.len(),
                0 <= k <= n,
                forall|id: RangeId|
                    #[trigger] set@.contains(id) <==> (old(set)@.contains(id) || exists|t: int|
                        0 <= t < k && (#[trigger] self.vreg_table@[t]) == (vreg, id)),
            decreases n - k,
        {
            let row = self.vreg_table[k];
            if row.0 == vreg {
                set.insert(row.1);
            }
            proof {
                assert forall|id: RangeId| #[trigger] set@.contains(id) implies (old(
                    set,
                )@.contains(id) || exists|t: int|
                    0 <= t < k + 1 && (#[trigger] self.vreg_table@[t]) == (vreg, id)) by {
                    if !old(set)@.contains(id) {
                        if row.0 == vreg && id == row.1 {
                            assert(self.vreg_table@[k as int] == (vreg, id));
                        } else {
                            let t = choose|t: int|
                                0 <= t < k && (#[trigger] self.vreg_table@[t]) == (vreg, id);
                            assert(0 <= t < k + 1 && self.vreg_table@[t] == (vreg, id));
                        }
                    }
                };
                assert forall|id: RangeId|
                    (old(set)@.contains(id) || exists|t: int|
                        0 <= t < k + 1 && (#[trigger] self.vreg_table@[t]) == (
                        vreg,
                        id,
                        )) implies #[trigger] set@.contains(id) by {
                    if !old(set)@.contains(id) {
                        let t = choose|t: int|
                            0 <= t < k + 1 && (#[trigger] self.vreg_table@[t]) == (vreg, id);
                        if t < k {
                            assert(exists|u: int|
                                0 <= u < k && (#[trigger] self.vreg_table@[u]) == (vreg, id));
                        } else {
                            assert(self.vreg_table@[k as int] == (vreg, id));
                            assert(row.0 == vreg && row.1 == id);
                        }
                    }
                };
            }
            k = k + 1;
        }
        proof {
            assert(set@ =~= old(set)@.union(self.ranges_of(vreg)));
        }
    }

    fn mark_reffy(&mut self, range_id: &RangeId) {
        self.marked_ids.insert(*range_id);
    }
}

} // verus!
