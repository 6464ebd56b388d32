//! The data the analysis works over: registers, program points, live-range
//! fragments, the two kinds of live ranges, the register-to-ranges maps, and
//! the list of move records.

use vstd::prelude::*;

verus! {

/// The class of a register: which domain of values it can hold.  The client
/// designates one class as the one whose values the garbage collector must be
/// able to locate.
#[derive(Clone, Copy, PartialEq, Eq, Structural, Debug)]
pub enum RegClass {
    I32,
    F32,
    I64,
    F64,
    V128,
}

/// Whether a register is a fixed hardware location or a not-yet-allocated
/// virtual register.
#[derive(Clone, Copy, PartialEq, Eq, Structural, Debug)]
pub enum RegKind {
    Real,
    Virtual,
}

/// A register as it appears in a move record: its class, whether it is real
/// or virtual, and its index within that kind's numbering.
#[derive(Clone, Copy, PartialEq, Eq, Structural, Debug)]
pub struct Reg {
    pub class: RegClass,
    pub kind: RegKind,
    pub index: usize,
}

/// A virtual register, as supplied by the client in the seed collection.
#[derive(Clone, Copy, PartialEq, Eq, Structural, Debug)]
pub struct VirtualReg {
    pub class: RegClass,
    pub index: usize,
}

/// The two sub-points of one instruction: the point where its operands are
/// read and the point where its results are written.  At one instruction the
/// use point comes before the def point.
#[derive(Clone, Copy, PartialEq, Eq, Structural, Debug)]
pub enum PointKind {
    Use,
    Def,
}

/// A position in the instruction stream: an instruction index together with
/// the use or def sub-point of that instruction.
#[derive(Clone, Copy, PartialEq, Eq, Structural, Debug)]
pub struct InstPoint {
    pub iix: usize,
    pub kind: PointKind,
}

/// The use point of instruction `iix`.
pub open spec fn use_pt(iix: usize) -> InstPoint {
    InstPoint { iix, kind: PointKind::Use }
}

/// The def point of instruction `iix`.
pub open spec fn def_pt(iix: usize) -> InstPoint {
    InstPoint { iix, kind: PointKind::Def }
}

impl InstPoint {
    /// The use point of instruction `iix`.
    pub fn new_use(iix: usize) -> (r: InstPoint)
        ensures
            r == use_pt(iix),
    {
        InstPoint { iix, kind: PointKind::Use }
    }

    /// The def point of instruction `iix`.
    pub fn new_def(iix: usize) -> (r: InstPoint)
        ensures
            r == def_pt(iix),
    {
        InstPoint { iix, kind: PointKind::Def }
    }
}

/// Program points are ordered by instruction index, and within one
/// instruction the use point comes before the def point.
pub open spec fn pt_le(a: InstPoint, b: InstPoint) -> bool {
    a.iix < b.iix || (a.iix == b.iix && !(a.kind == PointKind::Def && b.kind == PointKind::Use))
}

/// Whether point `pt` lies inside fragment `f` (both endpoints inclusive).
pub open spec fn pt_in_frag(f: RangeFrag, pt: InstPoint) -> bool {
    pt_le(f.first, pt) && pt_le(pt, f.last)
}

/// A contiguous interval of program points over which a range is live.
#[derive(Clone, Copy, PartialEq, Eq, Structural, Debug)]
pub struct RangeFrag {
    pub first: InstPoint,
    pub last: InstPoint,
}

impl RangeFrag {
    /// Whether `pt` lies inside this fragment.
    pub fn contains_pt(&self, pt: InstPoint) -> (r: bool)
        ensures
            r == pt_in_frag(*self, pt),
    {
        let first_le = self.first.iix < pt.iix
            || (self.first.iix == pt.iix
                && !(matches!(self.first.kind, PointKind::Def) && matches!(pt.kind, PointKind::Use)));
        let last_ge = pt.iix < self.last.iix
            || (pt.iix == self.last.iix
                && !(matches!(pt.kind, PointKind::Def) && matches!(self.last.kind, PointKind::Use)));
        first_le && last_ge
    }
}

/// A live range tied to one fixed real register.  Its fragments are stored as
/// indices into the shared fragment environment.
#[derive(Debug)]
pub struct RealRange {
    pub sorted_frags: Vec<usize>,
    pub is_ref: bool,
}

/// Whether any fragment of `fs` contains `pt`.
pub open spec fn frags_cover(fs: Seq<RangeFrag>, pt: InstPoint) -> bool {
    exists|k: int| 0 <= k < fs.len() && pt_in_frag(fs[k], pt)
}

/// Whether any of the fragments of `frag_env` named by `frag_ixs` contains
/// `pt`.
pub open spec fn frag_ixs_cover(
    frag_ixs: Seq<usize>,
    frag_env: Seq<RangeFrag>,
    pt: InstPoint,
) -> bool {
    exists|k: int| 0 <= k < frag_ixs.len() && pt_in_frag(frag_env[frag_ixs[k] as int], pt)
}

/// Whether real range `rr`, whose fragments live in `frag_env`, covers `pt`.
pub open spec fn rrange_covers(rr: RealRange, frag_env: Seq<RangeFrag>, pt: InstPoint) -> bool {
    frag_ixs_cover(rr.sorted_frags@, frag_env, pt)
}

/// A live range of a virtual register, not yet bound to a hardware location.
/// It owns its fragments directly.
#[derive(Debug)]
pub struct VirtualRange {
    pub sorted_frags: Vec<RangeFrag>,
    pub is_ref: bool,
}

/// Whether virtual range `vr` covers `pt`.
pub open spec fn vrange_covers(vr: VirtualRange, pt: InstPoint) -> bool {
    frags_cover(vr.sorted_frags@, pt)
}

impl VirtualRange {
    /// Whether this range covers `pt`.
    pub fn contains_pt(&self, pt: InstPoint) -> (r: bool)
        ensures
            r == vrange_covers(*self, pt),
    {
        let n = self.sorted_frags.len();
        let mut k: usize = 0;
        while k < n
            invariant
                n == self.sorted_frags@.len(),
                0 <= k <= n,
                forall|j: int| 0 <= j < k ==> !pt_in_frag(self.sorted_frags@[j], pt),
            decreases n - k,
        {
            if self.sorted_frags[k].contains_pt(pt) {
                return true;
            }
            k = k + 1;
        }
        false
    }
}

/// A unified identity for a live range of either kind: the vertex type of the
/// move graph.  Two identities are equal exactly when they denote the same
/// concrete range of the same kind.
#[derive(Clone, Copy, PartialEq, Eq, Structural, Debug)]
pub enum RangeId {
    Real(usize),
    Virtual(usize),
}

impl RangeId {
    /// The identity of the real range at index `ix`.
    pub fn new_real(ix: usize) -> (r: RangeId)
        ensures
            r == RangeId::Real(ix),
    {
        RangeId::Real(ix)
    }

    /// The identity of the virtual range at index `ix`.
    pub fn new_virtual(ix: usize) -> (r: RangeId)
        ensures
            r == RangeId::Virtual(ix),
    {
        RangeId::Virtual(ix)
    }
}

/// Whether `id` denotes a range that exists in environments holding
/// `num_real` real ranges and `num_virtual` virtual ranges.
pub open spec fn id_within(id: RangeId, num_real: usize, num_virtual: usize) -> bool {
    match id {
        RangeId::Real(i) => i < num_real,
        RangeId::Virtual(i) => i < num_virtual,
    }
}

/// For every register, the ranges that register participates in, kept as
/// indices into the real and virtual range environments respectively.
#[derive(Debug)]
pub struct RegToRangesMaps {
    pub rreg_to_rlrs_map: Vec<Vec<usize>>,
    pub vreg_to_vlrs_map: Vec<Vec<usize>>,
}

/// One instruction classified by the client as a pure register copy:
/// `dst := src` at instruction `iix`.
#[derive(Clone, Copy, PartialEq, Eq, Structural, Debug)]
pub struct MoveInfoElem {
    pub dst: Reg,
    pub src: Reg,
    pub iix: usize,
}

/// The full list of move records of the function being compiled.
#[derive(Debug)]
pub struct MoveInfo {
    pub moves: Vec<MoveInfoElem>,
}

impl View for MoveInfo {
    type V = Seq<MoveInfoElem>;

    open spec fn view(&self) -> Seq<MoveInfoElem> {
        self.moves@
    }
}

/// How a run of the analysis can fail.  Every failure is a hard stop: nothing
/// has been marked when an error is returned.
#[derive(Clone, Copy, PartialEq, Eq, Structural, Debug)]
pub enum AnalysisError {
    /// A move record whose source and destination classes differ: the client's
    /// move classifier violated its contract.
    MoveClassMismatch,
    /// A seed register whose class is not the designated reference class: the
    /// client's seed collection violated its contract.
    SeedClassMismatch,
    /// No live range covers a register at a point where a move references it:
    /// the upstream liveness data is internally inconsistent.
    NoCoveringRange,
}

} // verus!
