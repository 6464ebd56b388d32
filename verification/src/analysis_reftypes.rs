//! The taint analysis itself: build the move graph, collect the seed ranges,
//! compute the transitive closure of reference flow, and mark every range the
//! closure reaches.

use vstd::prelude::*;
use vstd::set_lib::lemma_len_subset;

use crate::data_structures::{
    def_pt, frag_ixs_cover, frags_cover, id_within, use_pt, AnalysisError, InstPoint, MoveInfo,
    MoveInfoElem, RangeFrag, RangeId, RealRange, Reg, RegClass, RegKind, RegToRangesMaps,
    VirtualRange, VirtualReg,
};
use crate::move_graph::MoveGraph;
use crate::reach::{
    closed_under, lemma_no_edges_reach_exact, lemma_reach_congruence, lemma_reach_least,
    lemma_reaches_step, lemma_rerun_adds_nothing, lemma_seeds_in_reach, reach_set, reaches,
};
use crate::sparse_set::SparseSet;
use crate::stack::{stack_is_empty, stack_model, stack_new, stack_pop, stack_push};

verus! {

/// The capability interface of the range storage: locate the range covering a
/// register at a point, enumerate the ranges of a virtual register, and mark
/// a range as reference-typed.  The propagation algorithm sees the storage
/// only through this trait.
pub trait ReftypeAnalysis: Sized {
    /// The range environments and maps are well formed.
    spec fn inv(self) -> bool;

    /// How many real ranges the environment holds.
    spec fn num_real_ranges(self) -> usize;

    /// How many virtual ranges the environment holds.
    spec fn num_virtual_ranges(self) -> usize;

    /// The identity of the range of `reg` that covers `pt`, if any.
    spec fn locate_spec(self, pt: InstPoint, reg: Reg) -> Option<RangeId>;

    /// Every range identity associated with virtual register `vreg`.
    spec fn ranges_of(self, vreg: VirtualReg) -> Set<RangeId>;

    /// The identities of the ranges currently marked as reference-typed.
    spec fn marked(self) -> Set<RangeId>;

    /// Everything except the reference marks: two states with the same
    /// structure hold the same ranges, fragments and maps, and may differ
    /// only in which ranges are marked.
    spec fn same_structure(self, other: Self) -> bool;

    /// A state shares its structure with itself.
    proof fn lemma_same_structure_refl(self)
        ensures
            self.same_structure(self),
    ;

    /// Sharing structure is transitive.
    proof fn lemma_same_structure_trans(a: Self, b: Self, c: Self)
        requires
            a.same_structure(b),
            b.same_structure(c),
        ensures
            a.same_structure(c),
    ;

    /// The structure determines the whole model except the marks.
    proof fn lemma_same_structure_model(a: Self, b: Self)
        requires
            a.same_structure(b),
        ensures
            a.inv() == b.inv(),
            a.num_real_ranges() == b.num_real_ranges(),
            a.num_virtual_ranges() == b.num_virtual_ranges(),
            forall|pt: InstPoint, reg: Reg| #[trigger] a.locate_spec(pt, reg) == b.locate_spec(
                pt,
                reg,
            ),
            forall|vreg: VirtualReg| #[trigger] a.ranges_of(vreg) == b.ranges_of(vreg),
    ;

    /// Whatever is located or seeded denotes a range that exists.
    proof fn lemma_model_in_bounds(self)
        requires
            self.inv(),
        ensures
            forall|pt: InstPoint, reg: Reg|
                (#[trigger] self.locate_spec(pt, reg)) is Some ==> id_within(
                    self.locate_spec(pt, reg)->Some_0,
                    self.num_real_ranges(),
                    self.num_virtual_ranges(),
                ),
            forall|vreg: VirtualReg, id: RangeId|
                #[trigger] self.ranges_of(vreg).contains(id) ==> id_within(
                    id,
                    self.num_real_ranges(),
                    self.num_virtual_ranges(),
                ),
    ;

    /// Find the identity of the range of `reg` that covers `pt`.  Failure to
    /// find one means the upstream liveness data is inconsistent with the
    /// move list.
    fn find_range_id_for_reg(&self, pt: InstPoint, reg: Reg) -> (r: Result<RangeId, AnalysisError>)
        requires
            self.inv(),
        ensures
            (match self.locate_spec(pt, reg) {
                Some(id) => r == Ok::<RangeId, AnalysisError>(id),
                None => r == Err::<RangeId, AnalysisError>(AnalysisError::NoCoveringRange),
            }),
    ;

    /// Add every range identity associated with `vreg` to `set`.
    fn insert_reffy_ranges(&self, vreg: VirtualReg, set: &mut SparseSet)
        requires
            self.inv(),
            old(set).inv(),
        ensures
            final(set).inv(),
            final(set)@ == old(set)@.union(self.ranges_of(vreg)),
    ;

    /// Mark the denoted range as reference-typed.  Marking an already marked
    /// range is harmless.
    fn mark_reffy(&mut self, range_id: &RangeId)
        requires
            old(self).inv(),
            id_within(*range_id, old(self).num_real_ranges(), old(self).num_virtual_ranges()),
        ensures
            final(self).marked() == old(self).marked().insert(*range_id),
            old(self).same_structure(*final(self)),
    ;
}

/// Every move record copies within one register class.
pub open spec fn move_classes_ok(moves: Seq<MoveInfoElem>) -> bool {
    forall|i: int| 0 <= i < moves.len() ==> (#[trigger] moves[i]).src.class == moves[i].dst.class
}

/// Whether a move can carry reference-typed values.
pub open spec fn qualifies(m: MoveInfoElem, reftype_class: RegClass) -> bool {
    m.dst.class == reftype_class
}

/// Both endpoints of every qualifying move are covered by a range.
pub open spec fn moves_locatable<RA: ReftypeAnalysis>(
    a: RA,
    moves: Seq<MoveInfoElem>,
    reftype_class: RegClass,
) -> bool {
    forall|i: int|
        0 <= i < moves.len() && qualifies(#[trigger] moves[i], reftype_class) ==> a.locate_spec(
            use_pt(moves[i].iix),
            moves[i].src,
        ) is Some && a.locate_spec(def_pt(moves[i].iix), moves[i].dst) is Some
}

/// Every seed register belongs to the reference class.
pub open spec fn seed_classes_ok(vregs: Seq<VirtualReg>, reftype_class: RegClass) -> bool {
    forall|i: int| 0 <= i < vregs.len() ==> (#[trigger] vregs[i]).class == reftype_class
}

/// All the conditions under which a run succeeds.
pub open spec fn inputs_ok<RA: ReftypeAnalysis>(
    a: RA,
    moves: Seq<MoveInfoElem>,
    reftype_class: RegClass,
    vregs: Seq<VirtualReg>,
) -> bool {
    move_classes_ok(moves) && moves_locatable(a, moves, reftype_class) && seed_classes_ok(
        vregs,
        reftype_class,
    )
}

/// The edge relation of the move graph over a prefix of the move list: the
/// first `n` moves contribute an edge from the range covering their source at
/// their use point to the range covering their destination at their def
/// point, provided they are of the reference class.
pub open spec fn edge_rel_upto<RA: ReftypeAnalysis>(
    a: RA,
    moves: Seq<MoveInfoElem>,
    reftype_class: RegClass,
    n: int,
) -> spec_fn(RangeId, RangeId) -> bool {
    |x: RangeId, y: RangeId|
        exists|i: int|
            0 <= i < n && i < moves.len() && qualifies(#[trigger] moves[i], reftype_class)
                && a.locate_spec(use_pt(moves[i].iix), moves[i].src) == Some(x) && a.locate_spec(
                def_pt(moves[i].iix),
                moves[i].dst,
            ) == Some(y)
}

/// The full edge relation of the move graph.
pub open spec fn edge_rel<RA: ReftypeAnalysis>(
    a: RA,
    moves: Seq<MoveInfoElem>,
    reftype_class: RegClass,
) -> spec_fn(RangeId, RangeId) -> bool {
    edge_rel_upto(a, moves, reftype_class, moves.len() as int)
}

/// The seed ranges contributed by the first `n` seed registers.
pub open spec fn seed_ranges_upto<RA: ReftypeAnalysis>(
    a: RA,
    vregs: Seq<VirtualReg>,
    n: int,
) -> Set<RangeId> {
    Set::new(
        |id: RangeId|
            exists|i: int|
                0 <= i < n && i < vregs.len() && #[trigger] a.ranges_of(vregs[i]).contains(id),
    )
}

/// The union of the ranges of all the client-supplied seed registers.
pub open spec fn seed_ranges<RA: ReftypeAnalysis>(a: RA, vregs: Seq<VirtualReg>) -> Set<RangeId> {
    seed_ranges_upto(a, vregs, vregs.len() as int)
}

/// All the identities that exist in an environment of `num_real` real and
/// `num_virtual` virtual ranges, each exactly once.
pub open spec fn id_universe(num_real: usize, num_virtual: usize) -> Seq<RangeId> {
    Seq::new(num_real as nat, |i: int| RangeId::Real(i as usize)) + Seq::new(
        num_virtual as nat,
        |i: int| RangeId::Virtual(i as usize),
    )
}

/// The universe of identities is finite, has one entry per range, and holds
/// every in-bounds identity.
proof fn lemma_id_universe(num_real: usize, num_virtual: usize)
    ensures
        id_universe(num_real, num_virtual).to_set().finite(),
        id_universe(num_real, num_virtual).to_set().len() == num_real + num_virtual,
        forall|id: RangeId|
            id_within(id, num_real, num_virtual) ==> id_universe(
                num_real,
                num_virtual,
            ).to_set().contains(id),
{
    let u = id_universe(num_real, num_virtual);
    let nr = num_real as int;
    assert forall|i: int, j: int|
        0 <= i < u.len() && 0 <= j < u.len() && i != j implies u[i] != u[j] by {
        if i < nr && j < nr {
            assert(u[i] == RangeId::Real(i as usize) && u[j] == RangeId::Real(j as usize));
        } else if i < nr {
            assert(u[i] == RangeId::Real(i as usize) && u[j] == RangeId::Virtual((j - nr) as usize));
        } else if j < nr {
            assert(u[i] == RangeId::Virtual((i - nr) as usize) && u[j] == RangeId::Real(j as usize));
        } else {
            assert(u[i] == RangeId::Virtual((i - nr) as usize) && u[j] == RangeId::Virtual(
                (j - nr) as usize,
            ));
        }
    };
    assert(u.no_duplicates());
    u.unique_seq_to_set();
    vstd::seq_lib::seq_to_set_is_finite(u);
    assert forall|id: RangeId| id_within(id, num_real, num_virtual) implies u.to_set().contains(
        id,
    ) by {
        match id {
            RangeId::Real(i) => {
                assert(u[i as int] == id);
                assert(u.contains(id));
            },
            RangeId::Virtual(i) => {
                assert(u[i as int + nr] == id);
                assert(u.contains(id));
            },
        }
    };
}

/// A duplicate-free collection of in-bounds identities can hold no more than
/// one entry per range.
proof fn lemma_visited_bound(elems: Seq<RangeId>, num_real: usize, num_virtual: usize)
    requires
        elems.no_duplicates(),
        forall|k: int|
            0 <= k < elems.len() ==> id_within(#[trigger] elems[k], num_real, num_virtual),
    ensures
        elems.len() <= num_real + num_virtual,
{
    elems.unique_seq_to_set();
    lemma_id_universe(num_real, num_virtual);
    assert forall|id: RangeId| elems.to_set().contains(id) implies id_universe(
        num_real,
        num_virtual,
    ).to_set().contains(id) by {
        let k = choose|k: int| 0 <= k < elems.len() && elems[k] == id;
        assert(id_within(elems[k], num_real, num_virtual));
    };
    lemma_len_subset(
        elems.to_set(),
        id_universe(num_real, num_virtual).to_set(),
    );
}

/// Stage one: scan the move list and build the move graph.  Rejects a move
/// whose classes disagree, and fails when a qualifying move's endpoint has no
/// covering range.
fn build_move_graph<RA: ReftypeAnalysis>(
    analysis: &RA,
    move_info: &MoveInfo,
    reftype_class: RegClass,
) -> (r: Result<MoveGraph, AnalysisError>)
    requires
        analysis.inv(),
    ensures
        r is Ok <==> (move_classes_ok(move_info@) && moves_locatable(
            *analysis,
            move_info@,
            reftype_class,
        )),
        (match r {
            Ok(g) => g.inv() && forall|x: RangeId, y: RangeId|
                #[trigger] g.has_edge(x, y) <==> edge_rel(*analysis, move_info@, reftype_class)(
                    x,
                    y,
                ),
            Err(e) => (e == AnalysisError::MoveClassMismatch && !move_classes_ok(move_info@)) || (e
                == AnalysisError::NoCoveringRange && !moves_locatable(
                *analysis,
                move_info@,
                reftype_class,
            )),
        }),
{
    let mut succ = MoveGraph::new();
    let nmoves = move_info.moves.len();
    let mut midx: usize = 0;
    while midx < nmoves
        invariant
            analysis.inv(),
            nmoves == move_info@.len(),
            0 <= midx <= nmoves,
            succ.inv(),
            forall|i: int|
                0 <= i < midx ==> (#[trigger] move_info@[i]).src.class == move_info@[i].dst.class,
            forall|i: int|
                0 <= i < midx && qualifies(#[trigger] move_info@[i], reftype_class)
                    ==> analysis.locate_spec(use_pt(move_info@[i].iix), move_info@[i].src) is Some
                    && analysis.locate_spec(def_pt(move_info@[i].iix), move_info@[i].dst) is Some,
            forall|x: RangeId, y: RangeId|
                #[trigger] succ.has_edge(x, y) <==> edge_rel_upto(
                    *analysis,
                    move_info@,
                    reftype_class,
                    midx as int,
                )(x, y),
        decreases nmoves - midx,
    {
        let m = move_info.moves[midx];
        if m.src.class != m.dst.class {
            return Err(AnalysisError::MoveClassMismatch);
        }
        if m.dst.class == reftype_class {
            let src_range = match analysis.find_range_id_for_reg(InstPoint::new_use(m.iix), m.src) {
                Ok(id) => id,
                Err(e) => {
                    return Err(e);
                },
            };
            let dst_range = match analysis.find_range_id_for_reg(InstPoint::new_def(m.iix), m.dst) {
                Ok(id) => id,
                Err(e) => {
                    return Err(e);
                },
            };
            succ.add_edge(src_range, dst_range);
            proof {
                assert forall|x: RangeId, y: RangeId| #[trigger] succ.has_edge(x, y) implies
                edge_rel_upto(*analysis, move_info@, reftype_class, midx + 1)(x, y) by {
                    if x == src_range && y == dst_range {
                        assert(qualifies(move_info@[midx as int], reftype_class));
                    } else {
                        let i = choose|i: int|
                            0 <= i < midx && i < move_info@.len() && qualifies(
                                #[trigger] move_info@[i],
                                reftype_class,
                            ) && analysis.locate_spec(use_pt(move_info@[i].iix), move_info@[i].src)
                                == Some(x) && analysis.locate_spec(
                                def_pt(move_info@[i].iix),
                                move_info@[i].dst,
                            ) == Some(y);
                        assert(0 <= i < midx + 1);
                    }
                };
                assert forall|x: RangeId, y: RangeId|
                    edge_rel_upto(*analysis, move_info@, reftype_class, midx + 1)(
                        x,
                        y,
                    ) implies #[trigger] succ.has_edge(x, y) by {
                    let i = choose|i: int|
                        0 <= i < midx + 1 && i < move_info@.len() && qualifies(
                            #[trigger] move_info@[i],
                            reftype_class,
                        ) && analysis.locate_spec(use_pt(move_info@[i].iix), move_info@[i].src)
                            == Some(x) && analysis.locate_spec(
                            def_pt(move_info@[i].iix),
                            move_info@[i].dst,
                        ) == Some(y);
                    if i == midx {
                        assert(x == src_range && y == dst_range);
                    } else {
                        assert(edge_rel_upto(*analysis, move_info@, reftype_class, midx as int)(
                            x,
                            y,
                        ));
                    }
                };
            }
        } else {
            proof {
                assert forall|x: RangeId, y: RangeId|
                    edge_rel_upto(*analysis, move_info@, reftype_class, midx + 1)(
                        x,
                        y,
                    ) implies #[trigger] succ.has_edge(x, y) by {
                    let i = choose|i: int|
                        0 <= i < midx + 1 && i < move_info@.len() && qualifies(
                            #[trigger] move_info@[i],
                            reftype_class,
                        ) && analysis.locate_spec(use_pt(move_info@[i].iix), move_info@[i].src)
                            == Some(x) && analysis.locate_spec(
                            def_pt(move_info@[i].iix),
                            move_info@[i].dst,
                        ) == Some(y);
                    assert(i != midx);
                    assert(edge_rel_upto(*analysis, move_info@, reftype_class, midx as int)(x, y));
                };
                assert forall|x: RangeId, y: RangeId| #[trigger] succ.has_edge(x, y) implies
                edge_rel_upto(*analysis, move_info@, reftype_class, midx + 1)(x, y) by {
                    let i = choose|i: int|
                        0 <= i < midx && i < move_info@.len() && qualifies(
                            #[trigger] move_info@[i],
                            reftype_class,
                        ) && analysis.locate_spec(use_pt(move_info@[i].iix), move_info@[i].src)
                            == Some(x) && analysis.locate_spec(
                            def_pt(move_info@[i].iix),
                            move_info@[i].dst,
                        ) == Some(y);
                    assert(0 <= i < midx + 1);
                };
            }
        }
        midx = midx + 1;
    }
    Ok(succ)
}

/// Stage two: turn the client-supplied reference-typed virtual registers into
/// the set of seed range identities.  Rejects a register whose class is not
/// the reference class.
fn collect_seeds<RA: ReftypeAnalysis>(
    analysis: &RA,
    reftype_class: RegClass,
    reftyped_vregs: &Vec<VirtualReg>,
) -> (r: Result<SparseSet, AnalysisError>)
    requires
        analysis.inv(),
    ensures
        r is Ok <==> seed_classes_ok(reftyped_vregs@, reftype_class),
        (match r {
            Ok(s) => s.inv() && s@ == seed_ranges(*analysis, reftyped_vregs@) && forall|k: int|
                0 <= k < s.elems@.len() ==> id_within(
                    #[trigger] s.elems@[k],
                    analysis.num_real_ranges(),
                    analysis.num_virtual_ranges(),
                ),
            Err(e) => e == AnalysisError::SeedClassMismatch && !seed_classes_ok(
                reftyped_vregs@,
                reftype_class,
            ),
        }),
{
    let mut reftyped_ranges = SparseSet::new();
    let nv = reftyped_vregs.len();
    let mut vidx: usize = 0;
    proof {
        assert(reftyped_ranges@ =~= seed_ranges_upto(*analysis, reftyped_vregs@, 0));
    }
    while vidx < nv
        invariant
            analysis.inv(),
            nv == reftyped_vregs@.len(),
            0 <= vidx <= nv,
            reftyped_ranges.inv(),
            forall|i: int|
                0 <= i < vidx ==> (#[trigger] reftyped_vregs@[i]).class == reftype_class,
            reftyped_ranges@ == seed_ranges_upto(*analysis, reftyped_vregs@, vidx as int),
            forall|k: int|
                0 <= k < reftyped_ranges.elems@.len() ==> id_within(
                    #[trigger] reftyped_ranges.elems@[k],
                    analysis.num_real_ranges(),
                    analysis.num_virtual_ranges(),
                ),
        decreases nv - vidx,
    {
        let vreg = reftyped_vregs[vidx];
        if vreg.class != reftype_class {
            return Err(AnalysisError::SeedClassMismatch);
        }
        analysis.insert_reffy_ranges(vreg, &mut reftyped_ranges);
        proof {
            analysis.lemma_model_in_bounds();
            assert forall|id: RangeId| reftyped_ranges@.contains(id) implies seed_ranges_upto(
                *analysis,
                reftyped_vregs@,
                vidx + 1,
            ).contains(id) by {
                if seed_ranges_upto(*analysis, reftyped_vregs@, vidx as int).contains(id) {
                    let i = choose|i: int|
                        0 <= i < vidx && i < reftyped_vregs@.len() && #[trigger] analysis.ranges_of(
                            reftyped_vregs@[i],
                        ).contains(id);
                    assert(0 <= i < vidx + 1);
                } else {
                    assert(analysis.ranges_of(reftyped_vregs@[vidx as int]).contains(id));
                }
            };
            assert forall|id: RangeId|
                seed_ranges_upto(*analysis, reftyped_vregs@, vidx + 1).contains(
                    id,
                ) implies reftyped_ranges@.contains(id) by {
                let i = choose|i: int|
                    0 <= i < vidx + 1 && i < reftyped_vregs@.len() && #[trigger] analysis.ranges_of(
                        reftyped_vregs@[i],
                    ).contains(id);
                if i < vidx {
                    assert(seed_ranges_upto(*analysis, reftyped_vregs@, vidx as int).contains(id));
                }
            };
            assert(reftyped_ranges@ =~= seed_ranges_upto(
                *analysis,
                reftyped_vregs@,
                vidx + 1,
            ));
            assert forall|k: int| 0 <= k < reftyped_ranges.elems@.len() implies id_within(
                #[trigger] reftyped_ranges.elems@[k],
                analysis.num_real_ranges(),
                analysis.num_virtual_ranges(),
            ) by {
                assert(reftyped_ranges.elems@.contains(reftyped_ranges.elems@[k]));
                assert(reftyped_ranges@.contains(reftyped_ranges.elems@[k]));
            };
        }
        vidx = vidx + 1;
    }
    Ok(reftyped_ranges)
}

/// Stage three: multi-source depth-first search over the move graph.  The
/// result is exactly the set of identities reachable from the seeds.
fn compute_closure(
    succ: &MoveGraph,
    seeds: &SparseSet,
    Ghost(rel): Ghost<spec_fn(RangeId, RangeId) -> bool>,
    Ghost(num_real): Ghost<usize>,
    Ghost(num_virtual): Ghost<usize>,
) -> (r: SparseSet)
    requires
        succ.inv(),
        seeds.inv(),
        forall|x: RangeId, y: RangeId| #[trigger] succ.has_edge(x, y) <==> rel(x, y),
        forall|k: int|
            0 <= k < seeds.elems@.len() ==> id_within(
                #[trigger] seeds.elems@[k],
                num_real,
                num_virtual,
            ),
        forall|x: RangeId, y: RangeId| #[trigger] rel(x, y) ==> id_within(y, num_real, num_virtual),
    ensures
        r.inv(),
        r@ == reach_set(rel, seeds@),
        forall|k: int|
            0 <= k < r.elems@.len() ==> id_within(#[trigger] r.elems@[k], num_real, num_virtual),
{
    let mut visited = seeds.duplicate();
    let mut stack = stack_new();
    let nseeds = seeds.len();
    let mut k: usize = 0;
    while k < nseeds
        invariant
            nseeds == seeds.elems@.len(),
            0 <= k <= nseeds,
            stack_model(stack) == seeds.elems@.subrange(0, k as int),
        decreases nseeds - k,
    {
        let id = seeds.at(k);
        stack_push(&mut stack, id);
        proof {
            assert(stack_model(stack) =~= seeds.elems@.subrange(0, k + 1));
        }
        k = k + 1;
    }
    proof {
        assert(stack_model(stack) == seeds.elems@.subrange(0, nseeds as int));
        assert(seeds.elems@.subrange(0, nseeds as int) == seeds.elems@);
        lemma_seeds_in_reach(rel, seeds@);
        assert forall|t: int| 0 <= t < visited.elems@.len() implies reaches(
            rel,
            seeds@,
            #[trigger] visited.elems@[t],
        ) && id_within(visited.elems@[t], num_real, num_virtual) by {
            assert(visited.elems@.contains(visited.elems@[t]));
            assert(seeds@.contains(visited.elems@[t]));
        };
        lemma_visited_bound(visited.elems@, num_real, num_virtual);
    }
    while !stack_is_empty(&stack)
        invariant
            succ.inv(),
            visited.inv(),
            forall|x: RangeId, y: RangeId| #[trigger] succ.has_edge(x, y) <==> rel(x, y),
            forall|x: RangeId, y: RangeId|
                #[trigger] rel(x, y) ==> id_within(y, num_real, num_virtual),
            seeds@.subset_of(visited@),
            forall|t: int|
                0 <= t < visited.elems@.len() ==> reaches(
                    rel,
                    seeds@,
                    #[trigger] visited.elems@[t],
                ) && id_within(visited.elems@[t], num_real, num_virtual),
            visited.elems@.len() <= num_real + num_virtual,
            stack_model(stack).no_duplicates(),
            forall|t: int|
                0 <= t < stack_model(stack).len() ==> visited@.contains(
                    #[trigger] stack_model(stack)[t],
                ),
            forall|x: RangeId, y: RangeId|
                visited@.contains(x) && #[trigger] rel(x, y) && !visited@.contains(y)
                    ==> stack_model(stack).contains(x),
        decreases num_real + num_virtual - visited.elems@.len(), stack_model(stack).len(),
    {
        let ghost old_stack = stack_model(stack);
        let popped = stack_pop(&mut stack);
        let src = popped.unwrap();
        proof {
            assert(src == old_stack.last());
            assert(stack_model(stack) == old_stack.drop_last());
            assert(old_stack.contains(old_stack.last()));
            assert(visited@.contains(src));
            // src does not remain in the stack: it was on it exactly once
            assert forall|t: int| 0 <= t < stack_model(stack).len() implies stack_model(stack)[t]
                != src by {
                assert(old_stack[t] == stack_model(stack)[t]);
                assert(old_stack[old_stack.len() - 1] == src);
            };
            // popping removes only src: everything else stays on the stack
            assert forall|x: RangeId| old_stack.contains(x) && x != src implies stack_model(
                stack,
            ).contains(x) by {
                let t = choose|t: int| 0 <= t < old_stack.len() && old_stack[t] == x;
                assert(t != old_stack.len() - 1);
                assert(stack_model(stack)[t] == x);
            };
        }
        let ghost pre_len = visited.elems@.len();
        let dsts_opt = succ.lookup(src);
        match dsts_opt {
            Some(dsts) => {
                let nd = dsts.len();
                let mut j: usize = 0;
                proof {
                    assert forall|y: RangeId|
                        #[trigger] rel(src, y) && !visited@.contains(y) implies (exists|t: int|
                        0 <= t < dsts.elems@.len() && dsts.elems@[t] == y) by {
                        assert(dsts@.contains(y));
                        assert(dsts.elems@.contains(y));
                        let t = choose|t: int|
                            0 <= t < dsts.elems@.len() && dsts.elems@[t] == y;
                        assert(0 <= t < dsts.elems@.len() && dsts.elems@[t] == y);
                    };
                }
                while j < nd
                    invariant
                        succ.inv(),
                        visited.inv(),
                        forall|x: RangeId, y: RangeId|
                            #[trigger] succ.has_edge(x, y) <==> rel(x, y),
                        forall|x: RangeId, y: RangeId|
                            #[trigger] rel(x, y) ==> id_within(y, num_real, num_virtual),
                        seeds@.subset_of(visited@),
                        forall|t: int|
                            0 <= t < visited.elems@.len() ==> reaches(
                                rel,
                                seeds@,
                                #[trigger] visited.elems@[t],
                            ) && id_within(visited.elems@[t], num_real, num_virtual),
                        visited.elems@.len() <= num_real + num_virtual,
                        stack_model(stack).no_duplicates(),
                        forall|t: int|
                            0 <= t < stack_model(stack).len() ==> visited@.contains(
                                #[trigger] stack_model(stack)[t],
                            ),
                        dsts.inv(),
                        nd == dsts.elems@.len(),
                        0 <= j <= nd,
                        forall|y: RangeId| #[trigger] dsts@.contains(y) <==> rel(src, y),
                        visited@.contains(src),
                        reaches(rel, seeds@, src),
                        !stack_model(stack).contains(src),
                        forall|t: int|
                            0 <= t < j ==> visited@.contains(#[trigger] dsts.elems@[t]),
                        forall|x: RangeId, y: RangeId|
                            visited@.contains(x) && #[trigger] rel(x, y) && !visited@.contains(y)
                                ==> (stack_model(stack).contains(x) || x == src),
                        // the work that may remain for src sits at j or beyond
                        forall|y: RangeId|
                            #[trigger] rel(src, y) && !visited@.contains(y) ==> (exists|t: int|
                                j <= t < nd && dsts.elems@[t] == y),
                        // every push is matched by a newly visited identity
                        pre_len <= visited.elems@.len(),
                        stack_model(stack).len() + pre_len <= old_stack.len() - 1
                            + visited.elems@.len(),
                    decreases nd - j,
                {
                    let d = dsts.at(j);
                    if !visited.contains(d) {
                        proof {
                            assert(dsts@.contains(d));
                            assert(rel(src, d));
                            lemma_reaches_step(rel, seeds@, src, d);
                            assert(id_within(d, num_real, num_virtual));
                        }
                        let ghost pre_visited = visited;
                        let ghost pre_stack = stack_model(stack);
                        visited.insert(d);
                        stack_push(&mut stack, d);
                        proof {
                            assert(visited.elems@ == pre_visited.elems@.push(d));
                            assert(stack_model(stack) == pre_stack.push(d));
                            // the stack stays duplicate-free: d was not visited,
                            // and the stack only holds visited identities
                            assert forall|t: int|
                                0 <= t < pre_stack.len() implies pre_stack[t] != d by {
                                assert(pre_visited@.contains(pre_stack[t]));
                            };
                            assert(stack_model(stack).no_duplicates());
                            assert forall|t: int|
                                0 <= t < visited.elems@.len() implies reaches(
                                rel,
                                seeds@,
                                #[trigger] visited.elems@[t],
                            ) && id_within(visited.elems@[t], num_real, num_virtual) by {
                                if t < pre_visited.elems@.len() {
                                    assert(pre_visited.elems@[t] == visited.elems@[t]);
                                } else {
                                    assert(visited.elems@[t] == d);
                                }
                            };
                            lemma_visited_bound(visited.elems@, num_real, num_virtual);
                            // remaining work for src moved past j
                            assert forall|y: RangeId|
                                #[trigger] rel(src, y) && !visited@.contains(y) implies (
                            exists|t: int| j + 1 <= t < nd && dsts.elems@[t] == y) by {
                                assert(!pre_visited@.contains(y));
                                let t = choose|t: int|
                                    j <= t < nd && #[trigger] dsts.elems@[t] == y;
                                assert(y != d);
                                assert(t != j);
                                assert(j + 1 <= t < nd && dsts.elems@[t] == y);
                            };
                            // the pushed identity keeps the stack within the
                            // visited set, and src stays off the stack
                            assert(visited@ == pre_visited@.insert(d));
                            assert forall|t: int|
                                0 <= t < stack_model(stack).len() implies visited@.contains(
                                #[trigger] stack_model(stack)[t],
                            ) by {
                                if t < pre_stack.len() {
                                    assert(pre_stack[t] == stack_model(stack)[t]);
                                    assert(pre_visited@.contains(pre_stack[t]));
                                } else {
                                    assert(stack_model(stack)[t] == d);
                                }
                            };
                            assert(d != src) by {
                                assert(pre_visited@.contains(src));
                            };
                            assert(!stack_model(stack).contains(src)) by {
                                if stack_model(stack).contains(src) {
                                    let t = choose|t: int|
                                        0 <= t < stack_model(stack).len() && stack_model(stack)[t]
                                            == src;
                                    if t < pre_stack.len() {
                                        assert(pre_stack[t] == src);
                                        assert(pre_stack.contains(src));
                                    } else {
                                        assert(stack_model(stack)[t] == d);
                                    }
                                }
                            };
                            // pending identities other than src still sit on
                            // the stack or are src itself
                            assert forall|x: RangeId, y: RangeId|
                                visited@.contains(x) && #[trigger] rel(x, y) && !visited@.contains(
                                    y,
                                ) implies (stack_model(stack).contains(x) || x == src) by {
                                if x != src {
                                    assert(!pre_visited@.contains(y));
                                    if pre_visited@.contains(x) {
                                        if pre_stack.contains(x) {
                                            let t = choose|t: int|
                                                0 <= t < pre_stack.len() && pre_stack[t] == x;
                                            assert(stack_model(stack)[t] == x);
                                            assert(stack_model(stack).contains(x));
                                        }
                                    } else {
                                        assert(x == d);
                                        assert(stack_model(stack)[stack_model(stack).len() - 1]
                                            == d);
                                        assert(stack_model(stack).contains(d));
                                    }
                                }
                            };
                        }
                    } else {
                        proof {
                            assert forall|y: RangeId|
                                #[trigger] rel(src, y) && !visited@.contains(y) implies (
                            exists|t: int| j + 1 <= t < nd && dsts.elems@[t] == y) by {
                                let t = choose|t: int|
                                    j <= t < nd && #[trigger] dsts.elems@[t] == y;
                                assert(dsts.elems@[j as int] == d);
                                assert(t != j);
                                assert(j + 1 <= t < nd && dsts.elems@[t] == y);
                            };
                        }
                    }
                    j = j + 1;
                }
                proof {
                    // every edge out of src now lands in the visited set
                    assert forall|x: RangeId, y: RangeId|
                        visited@.contains(x) && #[trigger] rel(x, y) && !visited@.contains(
                            y,
                        ) implies stack_model(stack).contains(x) by {
                        if x == src {
                            let t = choose|t: int| j <= t < nd && dsts.elems@[t] == y;
                            assert(false);
                        }
                    };
                }
            },
            None => {
                proof {
                    assert forall|x: RangeId, y: RangeId|
                        visited@.contains(x) && #[trigger] rel(x, y) && !visited@.contains(
                            y,
                        ) implies stack_model(stack).contains(x) by {
                        if x == src {
                            assert(succ.has_edge(src, y));
                        }
                    };
                }
            },
        }
    }
    proof {
        // the stack is empty: the visited set is closed under edges, contains
        // the seeds, and holds only reachable identities -- so it is exactly
        // the reach set
        assert(closed_under(rel, visited@)) by {
            assert forall|x: RangeId, y: RangeId|
                visited@.contains(x) && #[trigger] rel(x, y) implies visited@.contains(y) by {
                if !visited@.contains(y) {
                    assert(stack_model(stack).contains(x));
                }
            };
        };
        lemma_reach_least(rel, seeds@, visited@);
        assert forall|id: RangeId| visited@.contains(id) implies reach_set(rel, seeds@).contains(
            id,
        ) by {
            let t = choose|t: int| 0 <= t < visited.elems@.len() && visited.elems@[t] == id;
            assert(reaches(rel, seeds@, visited.elems@[t]));
        };
        assert(visited@ =~= reach_set(rel, seeds@));
    }
    visited
}

/// Stage four: mark every identity in the visited set as reference-typed.
fn apply_marks<RA: ReftypeAnalysis>(analysis: &mut RA, visited: &SparseSet)
    requires
        old(analysis).inv(),
        visited.inv(),
        forall|k: int|
            0 <= k < visited.elems@.len() ==> id_within(
                #[trigger] visited.elems@[k],
                old(analysis).num_real_ranges(),
                old(analysis).num_virtual_ranges(),
            ),
    ensures
        final(analysis).marked() == old(analysis).marked().union(visited@),
        old(analysis).same_structure(*final(analysis)),
{
    let ghost a0 = *analysis;
    let n = visited.len();
    let mut t: usize = 0;
    proof {
        RA::lemma_same_structure_refl(a0);
        assert(a0.marked().union(visited.elems@.subrange(0, 0).to_set()) =~= a0.marked());
    }
    while t < n
        invariant
            n == visited.elems@.len(),
            0 <= t <= n,
            visited.inv(),
            forall|k: int|
                0 <= k < visited.elems@.len() ==> id_within(
                    #[trigger] visited.elems@[k],
                    a0.num_real_ranges(),
                    a0.num_virtual_ranges(),
                ),
            a0.inv(),
            a0.same_structure(*analysis),
            analysis.marked() == a0.marked().union(visited.elems@.subrange(0, t as int).to_set()),
        decreases n - t,
    {
        let id = visited.at(t);
        proof {
            RA::lemma_same_structure_model(a0, *analysis);
        }
        let ghost before = *analysis;
        analysis.mark_reffy(&id);
        proof {
            RA::lemma_same_structure_trans(a0, before, *analysis);
            let pre = visited.elems@.subrange(0, t as int);
            let post = visited.elems@.subrange(0, t + 1);
            assert(post == pre.push(id));
            assert forall|z: RangeId| post.to_set().contains(z) implies pre.to_set().contains(z)
                || z == id by {
                let k = choose|k: int| 0 <= k < post.len() && post[k] == z;
                if k < pre.len() {
                    assert(pre[k] == z);
                }
            };
            assert forall|z: RangeId| pre.to_set().contains(z) implies post.to_set().contains(
                z,
            ) by {
                let k = choose|k: int| 0 <= k < pre.len() && pre[k] == z;
                assert(post[k] == z);
            };
            assert(post.contains(id)) by {
                assert(post[t as int] == id);
            };
            assert(analysis.marked() =~= a0.marked().union(post.to_set()));
        }
        t = t + 1;
    }
    proof {
        assert(visited.elems@.subrange(0, n as int) == visited.elems@);
        assert forall|z: RangeId| visited.elems@.to_set().contains(z) <==> visited@.contains(
            z,
        ) by {};
        assert(analysis.marked() =~= a0.marked().union(visited@));
    }
}

/// The full analysis over any range storage: build the move graph from the
/// move list, collect the seed ranges, close them under reference-carrying
/// moves, and mark everything reached.  On success the marked set grows by
/// exactly the ranges reachable from the seeds; on failure nothing changes.
pub fn core_reftypes_analysis<RA: ReftypeAnalysis>(
    analysis: &mut RA,
    move_info: &MoveInfo,
    reftype_class: RegClass,
    reftyped_vregs: &Vec<VirtualReg>,
) -> (r: Result<(), AnalysisError>)
    requires
        old(analysis).inv(),
    ensures
        old(analysis).same_structure(*final(analysis)),
        r is Ok <==> inputs_ok(*old(analysis), move_info@, reftype_class, reftyped_vregs@),
        r is Ok ==> final(analysis).marked() == old(analysis).marked().union(
            reach_set(
                edge_rel(*old(analysis), move_info@, reftype_class),
                seed_ranges(*old(analysis), reftyped_vregs@),
            ),
        ),
        r is Err ==> *final(analysis) == *old(analysis),
        r == Err::<(), AnalysisError>(AnalysisError::MoveClassMismatch) ==> !move_classes_ok(
            move_info@,
        ),
        r == Err::<(), AnalysisError>(AnalysisError::NoCoveringRange) ==> !moves_locatable(
            *old(analysis),
            move_info@,
            reftype_class,
        ),
        r == Err::<(), AnalysisError>(AnalysisError::SeedClassMismatch) ==> !seed_classes_ok(
            reftyped_vregs@,
            reftype_class,
        ),
{
    let ghost a0 = *analysis;
    let succ = match build_move_graph(&*analysis, move_info, reftype_class) {
        Ok(g) => g,
        Err(e) => {
            proof {
                RA::lemma_same_structure_refl(a0);
            }
            return Err(e);
        },
    };
    let seeds = match collect_seeds(&*analysis, reftype_class, reftyped_vregs) {
        Ok(s) => s,
        Err(e) => {
            proof {
                RA::lemma_same_structure_refl(a0);
            }
            return Err(e);
        },
    };
    let ghost rel = edge_rel(a0, move_info@, reftype_class);
    proof {
        a0.lemma_model_in_bounds();
        assert forall|x: RangeId, y: RangeId| #[trigger] rel(x, y) implies id_within(
            y,
            a0.num_real_ranges(),
            a0.num_virtual_ranges(),
        ) by {
            let i = choose|i: int|
                0 <= i < move_info@.len() && qualifies(#[trigger] move_info@[i], reftype_class)
                    && a0.locate_spec(use_pt(move_info@[i].iix), move_info@[i].src) == Some(x)
                    && a0.locate_spec(def_pt(move_info@[i].iix), move_info@[i].dst) == Some(y);
            assert(a0.locate_spec(def_pt(move_info@[i].iix), move_info@[i].dst) is Some);
        };
    }
    let visited = compute_closure(
        &succ,
        &seeds,
        Ghost(rel),
        Ghost(a0.num_real_ranges()),
        Ghost(a0.num_virtual_ranges()),
    );
    apply_marks(analysis, &visited);
    Ok(())
}

/// The ranges a successful run marks: everything reachable from the seed
/// ranges along qualifying-move edges.
pub open spec fn analysis_result<RA: ReftypeAnalysis>(
    a: RA,
    moves: Seq<MoveInfoElem>,
    reftype_class: RegClass,
    vregs: Seq<VirtualReg>,
) -> Set<RangeId> {
    reach_set(edge_rel(a, moves, reftype_class), seed_ranges(a, vregs))
}

/// Reflexivity law: the seed ranges are always among the ranges marked by a
/// successful run.
pub proof fn lemma_seed_ranges_marked<RA: ReftypeAnalysis>(
    a: RA,
    moves: Seq<MoveInfoElem>,
    reftype_class: RegClass,
    vregs: Seq<VirtualReg>,
    marked_before: Set<RangeId>,
)
    ensures
        seed_ranges(a, vregs).subset_of(
            marked_before.union(analysis_result(a, moves, reftype_class, vregs)),
        ),
{
    lemma_seeds_in_reach(edge_rel(a, moves, reftype_class), seed_ranges(a, vregs));
    assert forall|id: RangeId| seed_ranges(a, vregs).contains(id) implies marked_before.union(
        analysis_result(a, moves, reftype_class, vregs),
    ).contains(id) by {
        assert(reach_set(edge_rel(a, moves, reftype_class), seed_ranges(a, vregs)).contains(id));
    };
}

/// Exactness with no moves: an empty move list grows the marked set by
/// exactly the seed ranges and nothing else.
pub proof fn lemma_no_moves_exact<RA: ReftypeAnalysis>(
    a: RA,
    reftype_class: RegClass,
    vregs: Seq<VirtualReg>,
    marked_before: Set<RangeId>,
)
    ensures
        marked_before.union(
            analysis_result(a, Seq::<MoveInfoElem>::empty(), reftype_class, vregs),
        ) == marked_before.union(seed_ranges(a, vregs)),
{
    let r = edge_rel(a, Seq::<MoveInfoElem>::empty(), reftype_class);
    assert forall|x: RangeId, y: RangeId| !#[trigger] r(x, y) by {
        if r(x, y) {
            let i = choose|i: int|
                0 <= i < 0 && i < Seq::<MoveInfoElem>::empty().len() && qualifies(
                    #[trigger] Seq::<MoveInfoElem>::empty()[i],
                    reftype_class,
                );
        }
    };
    lemma_no_edges_reach_exact(r, seed_ranges(a, vregs));
}

/// Class filtering: a move whose class is not the reference class never
/// contributes an edge — appending it to the move list leaves the resulting
/// marked ranges unchanged.
pub proof fn lemma_other_class_move_ignored<RA: ReftypeAnalysis>(
    a: RA,
    moves: Seq<MoveInfoElem>,
    m: MoveInfoElem,
    reftype_class: RegClass,
    vregs: Seq<VirtualReg>,
)
    requires
        m.dst.class != reftype_class,
    ensures
        analysis_result(a, moves.push(m), reftype_class, vregs) == analysis_result(
            a,
            moves,
            reftype_class,
            vregs,
        ),
{
    let r1 = edge_rel(a, moves.push(m), reftype_class);
    let r2 = edge_rel(a, moves, reftype_class);
    assert forall|x: RangeId, y: RangeId| #[trigger] r1(x, y) <==> #[trigger] r2(x, y) by {
        if r1(x, y) {
            let i = choose|i: int|
                0 <= i < moves.push(m).len() && qualifies(#[trigger] moves.push(m)[i], reftype_class)
                    && a.locate_spec(use_pt(moves.push(m)[i].iix), moves.push(m)[i].src) == Some(x)
                    && a.locate_spec(def_pt(moves.push(m)[i].iix), moves.push(m)[i].dst) == Some(y);
            assert(i != moves.len());
            assert(moves.push(m)[i] == moves[i]);
            assert(r2(x, y));
        }
        if r2(x, y) {
            let i = choose|i: int|
                0 <= i < moves.len() && qualifies(#[trigger] moves[i], reftype_class)
                    && a.locate_spec(use_pt(moves[i].iix), moves[i].src) == Some(x)
                    && a.locate_spec(def_pt(moves[i].iix), moves[i].dst) == Some(y);
            assert(moves.push(m)[i] == moves[i]);
            assert(r1(x, y));
        }
    };
    lemma_reach_congruence(r1, r2, seed_ranges(a, vregs));
}

/// Idempotence: running the analysis a second time over the same environment
/// marks nothing new.
pub proof fn lemma_analysis_idempotent<RA: ReftypeAnalysis>(
    a: RA,
    moves: Seq<MoveInfoElem>,
    reftype_class: RegClass,
    vregs: Seq<VirtualReg>,
    marked_before: Set<RangeId>,
)
    ensures
        marked_before.union(analysis_result(a, moves, reftype_class, vregs)).union(
            analysis_result(a, moves, reftype_class, vregs),
        ) == marked_before.union(analysis_result(a, moves, reftype_class, vregs)),
{
    lemma_rerun_adds_nothing(
        edge_rel(a, moves, reftype_class),
        seed_ranges(a, vregs),
        marked_before,
    );
}

/// Marking ranges does not feed back into the analysis: two states with the
/// same structure accept the same inputs, seed the same ranges, and reach the
/// same result, whatever is already marked in each.
pub proof fn lemma_same_structure_same_result<RA: ReftypeAnalysis>(
    a: RA,
    b: RA,
    moves: Seq<MoveInfoElem>,
    reftype_class: RegClass,
    vregs: Seq<VirtualReg>,
)
    requires
        a.same_structure(b),
    ensures
        seed_ranges(a, vregs) == seed_ranges(b, vregs),
        analysis_result(a, moves, reftype_class, vregs) == analysis_result(
            b,
            moves,
            reftype_class,
            vregs,
        ),
        inputs_ok(a, moves, reftype_class, vregs) == inputs_ok(b, moves, reftype_class, vregs),
{
    RA::lemma_same_structure_model(a, b);
    assert forall|id: RangeId| seed_ranges(a, vregs).contains(id) implies seed_ranges(
        b,
        vregs,
    ).contains(id) by {
        let i = choose|i: int|
            0 <= i < vregs.len() && #[trigger] a.ranges_of(vregs[i]).contains(id);
        assert(b.ranges_of(vregs[i]).contains(id));
    };
    assert forall|id: RangeId| seed_ranges(b, vregs).contains(id) implies seed_ranges(
        a,
        vregs,
    ).contains(id) by {
        let i = choose|i: int|
            0 <= i < vregs.len() && #[trigger] b.ranges_of(vregs[i]).contains(id);
        assert(a.ranges_of(vregs[i]).contains(id));
    };
    assert(seed_ranges(a, vregs) =~= seed_ranges(b, vregs));
    let r1 = edge_rel(a, moves, reftype_class);
    let r2 = edge_rel(b, moves, reftype_class);
    assert forall|x: RangeId, y: RangeId| #[trigger] r1(x, y) <==> #[trigger] r2(x, y) by {
        if r1(x, y) {
            let i = choose|i: int|
                0 <= i < moves.len() && qualifies(#[trigger] moves[i], reftype_class)
                    && a.locate_spec(use_pt(moves[i].iix), moves[i].src) == Some(x)
                    && a.locate_spec(def_pt(moves[i].iix), moves[i].dst) == Some(y);
            assert(b.locate_spec(use_pt(moves[i].iix), moves[i].src) == Some(x));
            assert(b.locate_spec(def_pt(moves[i].iix), moves[i].dst) == Some(y));
            assert(r2(x, y));
        }
        if r2(x, y) {
            let i = choose|i: int|
                0 <= i < moves.len() && qualifies(#[trigger] moves[i], reftype_class)
                    && b.locate_spec(use_pt(moves[i].iix), moves[i].src) == Some(x)
                    && b.locate_spec(def_pt(moves[i].iix), moves[i].dst) == Some(y);
            assert(a.locate_spec(use_pt(moves[i].iix), moves[i].src) == Some(x));
            assert(a.locate_spec(def_pt(moves[i].iix), moves[i].dst) == Some(y));
            assert(r1(x, y));
        }
    };
    lemma_reach_congruence(r1, r2, seed_ranges(a, vregs));
    assert(moves_locatable(a, moves, reftype_class) == moves_locatable(b, moves, reftype_class))
        by {
        if moves_locatable(a, moves, reftype_class) {
            assert forall|i: int|
                0 <= i < moves.len() && qualifies(#[trigger] moves[i], reftype_class) implies
            b.locate_spec(use_pt(moves[i].iix), moves[i].src) is Some && b.locate_spec(
                def_pt(moves[i].iix),
                moves[i].dst,
            ) is Some by {
                assert(a.locate_spec(use_pt(moves[i].iix), moves[i].src) is Some);
                assert(a.locate_spec(def_pt(moves[i].iix), moves[i].dst) is Some);
            };
        }
        if moves_locatable(b, moves, reftype_class) {
            assert forall|i: int|
                0 <= i < moves.len() && qualifies(#[trigger] moves[i], reftype_class) implies
            a.locate_spec(use_pt(moves[i].iix), moves[i].src) is Some && a.locate_spec(
                def_pt(moves[i].iix),
                moves[i].dst,
            ) is Some by {
                assert(b.locate_spec(use_pt(moves[i].iix), moves[i].src) is Some);
                assert(b.locate_spec(def_pt(moves[i].iix), moves[i].dst) is Some);
            };
        }
    };
}

/// Idempotence of the whole analysis: after one successful run, a second run
/// over the resulting state marks nothing new.
pub proof fn lemma_second_run_adds_nothing<RA: ReftypeAnalysis>(
    before: RA,
    after: RA,
    moves: Seq<MoveInfoElem>,
    reftype_class: RegClass,
    vregs: Seq<VirtualReg>,
)
    requires
        before.same_structure(after),
        after.marked() == before.marked().union(
            analysis_result(before, moves, reftype_class, vregs),
        ),
    ensures
        after.marked().union(analysis_result(after, moves, reftype_class, vregs))
            == after.marked(),
{
    lemma_same_structure_same_result(before, after, moves, reftype_class, vregs);
    lemma_analysis_idempotent(before, moves, reftype_class, vregs, before.marked());
}

/// The mark-independent shape of a backtracking environment: the maps and
/// fragment data as plain sequences.  Marking changes none of these, so the
/// located ranges and seed sets stay fixed during a run.
pub struct BacktrackingStructure {
    pub rreg_map: Seq<Seq<usize>>,
    pub vreg_map: Seq<Seq<usize>>,
    pub real_frag_ixs: Seq<Seq<usize>>,
    pub virtual_frags: Seq<Seq<RangeFrag>>,
    pub frag_env: Seq<RangeFrag>,
}

/// Every index stored in the maps names an existing range, and every fragment
/// index of a real range names an existing fragment.
pub open spec fn structure_inv(s: BacktrackingStructure) -> bool {
    &&& forall|i: int, j: int|
        0 <= i < s.rreg_map.len() && 0 <= j < s.rreg_map[i].len() ==> (
        #[trigger] s.rreg_map[i][j]) < s.real_frag_ixs.len()
    &&& forall|i: int, j: int|
        0 <= i < s.vreg_map.len() && 0 <= j < s.vreg_map[i].len() ==> (
        #[trigger] s.vreg_map[i][j]) < s.virtual_frags.len()
    &&& forall|i: int, j: int|
        0 <= i < s.real_frag_ixs.len() && 0 <= j < s.real_frag_ixs[i].len() ==> (
        #[trigger] s.real_frag_ixs[i][j]) < s.frag_env.len()
}

/// The first real range among `ixs`, from position `k` on, that covers `pt`.
pub open spec fn first_real_from(
    s: BacktrackingStructure,
    ixs: Seq<usize>,
    k: int,
    pt: InstPoint,
) -> Option<RangeId>
    decreases ixs.len() - k,
{
    if k < 0 || k >= ixs.len() {
        None
    } else if frag_ixs_cover(s.real_frag_ixs[ixs[k] as int], s.frag_env, pt) {
        Some(RangeId::Real(ixs[k]))
    } else {
        first_real_from(s, ixs, k + 1, pt)
    }
}

/// The first virtual range among `ixs`, from position `k` on, that covers
/// `pt`.
pub open spec fn first_virtual_from(
    s: BacktrackingStructure,
    ixs: Seq<usize>,
    k: int,
    pt: InstPoint,
) -> Option<RangeId>
    decreases ixs.len() - k,
{
    if k < 0 || k >= ixs.len() {
        None
    } else if frags_cover(s.virtual_frags[ixs[k] as int], pt) {
        Some(RangeId::Virtual(ixs[k]))
    } else {
        first_virtual_from(s, ixs, k + 1, pt)
    }
}

/// Where a backtracking environment locates a register at a point: the first
/// range of the register, in map order, that covers the point.
pub open spec fn structure_locate(
    s: BacktrackingStructure,
    pt: InstPoint,
    reg: Reg,
) -> Option<RangeId> {
    match reg.kind {
        RegKind::Real => if reg.index < s.rreg_map.len() {
            first_real_from(s, s.rreg_map[reg.index as int], 0, pt)
        } else {
            None
        },
        RegKind::Virtual => if reg.index < s.vreg_map.len() {
            first_virtual_from(s, s.vreg_map[reg.index as int], 0, pt)
        } else {
            None
        },
    }
}

/// The range identities a backtracking environment associates with a virtual
/// register: every virtual range its map lists for that register.
pub open spec fn structure_ranges_of(s: BacktrackingStructure, vreg: VirtualReg) -> Set<RangeId> {
    Set::new(
        |id: RangeId|
            vreg.index < s.vreg_map.len() && exists|k: int|
                0 <= k < s.vreg_map[vreg.index as int].len() && id == RangeId::Virtual(
                    #[trigger] s.vreg_map[vreg.index as int][k],
                ),
    )
}

/// A located real range is one of the register's listed ranges.
proof fn lemma_first_real_from_in(s: BacktrackingStructure, ixs: Seq<usize>, k: int, pt: InstPoint)
    ensures
        (match first_real_from(s, ixs, k, pt) {
            Some(id) => exists|t: int| k <= t < ixs.len() && id == RangeId::Real(#[trigger] ixs[t]),
            None => true,
        }),
    decreases ixs.len() - k,
{
    if k < 0 || k >= ixs.len() {
    } else if frag_ixs_cover(s.real_frag_ixs[ixs[k] as int], s.frag_env, pt) {
        assert(first_real_from(s, ixs, k, pt) == Some(RangeId::Real(ixs[k])));
    } else {
        lemma_first_real_from_in(s, ixs, k + 1, pt);
    }
}

/// A located virtual range is one of the register's listed ranges.
proof fn lemma_first_virtual_from_in(
    s: BacktrackingStructure,
    ixs: Seq<usize>,
    k: int,
    pt: InstPoint,
)
    ensures
        (match first_virtual_from(s, ixs, k, pt) {
            Some(id) => exists|t: int|
                k <= t < ixs.len() && id == RangeId::Virtual(#[trigger] ixs[t]),
            None => true,
        }),
    decreases ixs.len() - k,
{
    if k < 0 || k >= ixs.len() {
    } else if frags_cover(s.virtual_frags[ixs[k] as int], pt) {
        assert(first_virtual_from(s, ixs, k, pt) == Some(RangeId::Virtual(ixs[k])));
    } else {
        lemma_first_virtual_from_in(s, ixs, k + 1, pt);
    }
}

/// The production environment: the real and virtual range collections, the
/// shared fragment environment, and the register-to-ranges maps, borrowed
/// from the surrounding allocator for the duration of the analysis.
pub struct BacktrackingReftypeAnalysis {
    pub rlr_env: Vec<RealRange>,
    pub vlr_env: Vec<VirtualRange>,
    pub frag_env: Vec<RangeFrag>,
    pub reg_to_ranges_maps: RegToRangesMaps,
}

impl BacktrackingReftypeAnalysis {
    /// The mark-independent shape of this environment.
    pub open spec fn structure(self) -> BacktrackingStructure {
        BacktrackingStructure {
            rreg_map: self.reg_to_ranges_maps.rreg_to_rlrs_map@.map_values(|v: Vec<usize>| v@),
            vreg_map: self.reg_to_ranges_maps.vreg_to_vlrs_map@.map_values(|v: Vec<usize>| v@),
            real_frag_ixs: self.rlr_env@.map_values(|rr: RealRange| rr.sorted_frags@),
            virtual_frags: self.vlr_env@.map_values(|vr: VirtualRange| vr.sorted_frags@),
            frag_env: self.frag_env@,
        }
    }

    /// Whether the real range at `rlrix` covers `pt`, going through the
    /// shared fragment environment.
    fn real_range_covers_pt(&self, rlrix: usize, pt: InstPoint) -> (r: bool)
        requires
            self.inv(),
            rlrix < self.rlr_env@.len(),
        ensures
            r == crate::data_structures::rrange_covers(
                self.rlr_env@[rlrix as int],
                self.frag_env@,
                pt,
            ),
            r == frag_ixs_cover(
                self.structure().real_frag_ixs[rlrix as int],
                self.structure().frag_env,
                pt,
            ),
    {
        let rr = &self.rlr_env[rlrix];
        let n = rr.sorted_frags.len();
        let mut k: usize = 0;
        proof {
            assert(self.structure().real_frag_ixs[rlrix as int] == rr.sorted_frags@);
        }
        while k < n
            invariant
                self.inv(),
                rlrix < self.rlr_env@.len(),
                rr.sorted_frags@ == self.rlr_env@[rlrix as int].sorted_frags@,
                rr.sorted_frags@ == self.structure().real_frag_ixs[rlrix as int],
                n == rr.sorted_frags@.len(),
                0 <= k <= n,
                forall|t: int|
                    0 <= t < k ==> !pt_in_frag_at(self.structure(), rr.sorted_frags@[t], pt),
            decreases n - k,
        {
            let fx = rr.sorted_frags[k];
            proof {
                assert(self.structure().real_frag_ixs[rlrix as int][k as int] == fx);
                assert(fx < self.frag_env@.len());
            }
            if self.frag_env[fx].contains_pt(pt) {
                return true;
            }
            k = k + 1;
        }
        false
    }
}

/// Whether fragment number `fx` of the shared environment contains `pt`.
pub open spec fn pt_in_frag_at(s: BacktrackingStructure, fx: usize, pt: InstPoint) -> bool {
    crate::data_structures::pt_in_frag(s.frag_env[fx as int], pt)
}

impl ReftypeAnalysis for BacktrackingReftypeAnalysis {
    open spec fn inv(self) -> bool {
        structure_inv(self.structure())
    }

    open spec fn num_real_ranges(self) -> usize {
        self.rlr_env.len()
    }

    open spec fn num_virtual_ranges(self) -> usize {
        self.vlr_env.len()
    }

    open spec fn locate_spec(self, pt: InstPoint, reg: Reg) -> Option<RangeId> {
        structure_locate(self.structure(), pt, reg)
    }

    open spec fn ranges_of(self, vreg: VirtualReg) -> Set<RangeId> {
        structure_ranges_of(self.structure(), vreg)
    }

    open spec fn marked(self) -> Set<RangeId> {
        Set::new(
            |id: RangeId|
                match id {
                    RangeId::Real(i) => i < self.rlr_env@.len() && self.rlr_env@[i as int].is_ref,
                    RangeId::Virtual(i) => i < self.vlr_env@.len()
                        && self.vlr_env@[i as int].is_ref,
                },
        )
    }

    open spec fn same_structure(self, other: Self) -> bool {
        self.structure() == other.structure() && self.rlr_env@.len() == other.rlr_env@.len()
            && self.vlr_env@.len() == other.vlr_env@.len()
    }

    proof fn lemma_same_structure_refl(self) {
    }

    proof fn lemma_same_structure_trans(a: Self, b: Self, c: Self) {
    }

    proof fn lemma_same_structure_model(a: Self, b: Self) {
    }

    proof fn lemma_model_in_bounds(self) {
        let s = self.structure();
        assert(s.real_frag_ixs.len() == self.rlr_env@.len());
        assert(s.virtual_frags.len() == self.vlr_env@.len());
        assert forall|pt: InstPoint, reg: Reg|
            (#[trigger] self.locate_spec(pt, reg)) is Some implies id_within(
            self.locate_spec(pt, reg)->Some_0,
            self.num_real_ranges(),
            self.num_virtual_ranges(),
        ) by {
            match reg.kind {
                RegKind::Real => {
                    let ixs = s.rreg_map[reg.index as int];
                    lemma_first_real_from_in(s, ixs, 0, pt);
                    let t = choose|t: int|
                        0 <= t < ixs.len() && self.locate_spec(pt, reg)->Some_0 == RangeId::Real(
                            #[trigger] ixs[t],
                        );
                    assert(ixs[t] < s.real_frag_ixs.len());
                },
                RegKind::Virtual => {
                    let ixs = s.vreg_map[reg.index as int];
                    lemma_first_virtual_from_in(s, ixs, 0, pt);
                    let t = choose|t: int|
                        0 <= t < ixs.len() && self.locate_spec(pt, reg)->Some_0
                            == RangeId::Virtual(#[trigger] ixs[t]);
                    assert(ixs[t] < s.virtual_frags.len());
                },
            }
        };
        assert forall|vreg: VirtualReg, id: RangeId|
            #[trigger] self.ranges_of(vreg).contains(id) implies id_within(
            id,
            self.num_real_ranges(),
            self.num_virtual_ranges(),
        ) by {
            let k = choose|k: int|
                0 <= k < s.vreg_map[vreg.index as int].len() && id == RangeId::Virtual(
                    #[trigger] s.vreg_map[vreg.index as int][k],
                );
            assert(s.vreg_map[vreg.index as int][k] < s.virtual_frags.len());
        };
    }

    fn find_range_id_for_reg(&self, pt: InstPoint, reg: Reg) -> (r: Result<RangeId, AnalysisError>)
    {
        let ghost s = self.structure();
        match reg.kind {
            RegKind::Real => {
                if reg.index >= self.reg_to_ranges_maps.rreg_to_rlrs_map.len() {
                    return Err(AnalysisError::NoCoveringRange);
                }
                let ixs = &self.reg_to_ranges_maps.rreg_to_rlrs_map[reg.index];
                proof {
                    assert(ixs@ == s.rreg_map[reg.index as int]);
                }
                let n = ixs.len();
                let mut k: usize = 0;
                while k < n
                    invariant
                        self.inv(),
                        s == self.structure(),
                        reg.kind == RegKind::Real,
                        reg.index < s.rreg_map.len(),
                        ixs@ == s.rreg_map[reg.index as int],
                        n == ixs@.len(),
                        0 <= k <= n,
                        first_real_from(s, ixs@, k as int, pt) == first_real_from(s, ixs@, 0, pt),
                    decreases n - k,
                {
                    let rlrix = ixs[k];
                    proof {
                        assert(s.rreg_map[reg.index as int][k as int] == rlrix);
                        assert(rlrix < s.real_frag_ixs.len());
                        assert(rlrix < self.rlr_env@.len());
                    }
                    if self.real_range_covers_pt(rlrix, pt) {
                        proof {
                            assert(first_real_from(s, ixs@, k as int, pt) == Some(
                                RangeId::Real(rlrix),
                            ));
                        }
                        return Ok(RangeId::new_real(rlrix));
                    }
                    k = k + 1;
                }
                proof {
                    assert(first_real_from(s, ixs@, n as int, pt) is None);
                }
                Err(AnalysisError::NoCoveringRange)
            },
            RegKind::Virtual => {
                if reg.index >= self.reg_to_ranges_maps.vreg_to_vlrs_map.len() {
                    return Err(AnalysisError::NoCoveringRange);
                }
                let ixs = &self.reg_to_ranges_maps.vreg_to_vlrs_map[reg.index];
                proof {
                    assert(ixs@ == s.vreg_map[reg.index as int]);
                }
                let n = ixs.len();
                let mut k: usize = 0;
                while k < n
                    invariant
                        self.inv(),
                        s == self.structure(),
                        reg.kind == RegKind::Virtual,
                        reg.index < s.vreg_map.len(),
                        ixs@ == s.vreg_map[reg.index as int],
                        n == ixs@.len(),
                        0 <= k <= n,
                        first_virtual_from(s, ixs@, k as int, pt) == first_virtual_from(
                            s,
                            ixs@,
                            0,
                            pt,
                        ),
                    decreases n - k,
                {
                    let vlrix = ixs[k];
                    proof {
                        assert(s.vreg_map[reg.index as int][k as int] == vlrix);
                        assert(vlrix < s.virtual_frags.len());
                        assert(vlrix < self.vlr_env@.len());
                        assert(s.virtual_frags[vlrix as int] == self.vlr_env@[vlrix as int].sorted_frags@);
                    }
                    if self.vlr_env[vlrix].contains_pt(pt) {
                        proof {
                            assert(first_virtual_from(s, ixs@, k as int, pt) == Some(
                                RangeId::Virtual(vlrix),
                            ));
                        }
                        return Ok(RangeId::new_virtual(vlrix));
                    }
                    k = k + 1;
                }
                proof {
                    assert(first_virtual_from(s, ixs@, n as int, pt) is None);
                }
                Err(AnalysisError::NoCoveringRange)
            },
        }
    }

    fn insert_reffy_ranges(&self, vreg: VirtualReg, set: &mut SparseSet) {
        let ghost s = self.structure();
        if vreg.index >= self.reg_to_ranges_maps.vreg_to_vlrs_map.len() {
            proof {
                assert(set@ =~= old(set)@.union(self.ranges_of(vreg)));
            }
            return ;
        }
        let ixs = &self.reg_to_ranges_maps.vreg_to_vlrs_map[vreg.index];
        proof {
            assert(ixs@ == s.vreg_map[vreg.index as int]);
        }
        let n = ixs.len();
        let mut k: usize = 0;
        while k < n
            invariant
                old(set).inv(),
                set.inv(),
                vreg.index < s.vreg_map.len(),
                ixs@ == s.vreg_map[vreg.index as int],
                n == ixs@.len(),
                0 <= k <= n,
                forall|id: RangeId|
                    #[trigger] set@.contains(id) <==> (old(set)@.contains(id) || exists|t: int|
                        0 <= t < k && id == RangeId::Virtual(#[trigger] ixs@[t])),
            decreases n - k,
        {
            let vlrix = ixs[k];
            set.insert(RangeId::new_virtual(vlrix));
            proof {
                assert forall|id: RangeId| #[trigger] set@.contains(id) implies (old(
                    set,
                )@.contains(id) || exists|t: int|
                    0 <= t < k + 1 && id == RangeId::Virtual(#[trigger] ixs@[t])) by {
                    if id != RangeId::Virtual(vlrix) && !old(set)@.contains(id) {
                        let t = choose|t: int|
                            0 <= t < k && id == RangeId::Virtual(#[trigger] ixs@[t]);
                        assert(0 <= t < k + 1 && id == RangeId::Virtual(ixs@[t]));
                    } else if id == RangeId::Virtual(vlrix) {
                        assert(0 <= k < k + 1 && id == RangeId::Virtual(ixs@[k as int]));
                    }
                };
                assert forall|id: RangeId|
                    (old(set)@.contains(id) || exists|t: int|
                        0 <= t < k + 1 && id == RangeId::Virtual(
                            #[trigger] ixs@[t],
                        )) implies #[trigger] set@.contains(id) by {
                    if !old(set)@.contains(id) {
                        let t = choose|t: int|
                            0 <= t < k + 1 && id == RangeId::Virtual(#[trigger] ixs@[t]);
                        if t < k {
                            assert(exists|u: int|
                                0 <= u < k && id == RangeId::Virtual(#[trigger] ixs@[u]));
                        }
                    }
                };
            }
            k = k + 1;
        }
        proof {
            assert forall|id: RangeId| #[trigger] set@.contains(id) implies old(set)@.union(
                self.ranges_of(vreg),
            ).contains(id) by {
                if !old(set)@.contains(id) {
                    let t = choose|t: int| 0 <= t < n && id == RangeId::Virtual(#[trigger] ixs@[t]);
                    assert(id == RangeId::Virtual(s.vreg_map[vreg.index as int][t]));
                    assert(self.ranges_of(vreg).contains(id));
                }
            };
            assert forall|id: RangeId|
                old(set)@.union(self.ranges_of(vreg)).contains(id) implies #[trigger] set@.contains(
                id,
            ) by {
                if !old(set)@.contains(id) {
                    let t = choose|t: int|
                        0 <= t < s.vreg_map[vreg.index as int].len() && id == RangeId::Virtual(
                            #[trigger] s.vreg_map[vreg.index as int][t],
                        );
                    assert(id == RangeId::Virtual(ixs@[t]));
                }
            };
            assert(set@ =~= old(set)@.union(self.ranges_of(vreg)));
        }
    }

    fn mark_reffy(&mut self, range_id: &RangeId) {
        match *range_id {
            RangeId::Real(i) => {
                let entry = &mut self.rlr_env[i];
                entry.is_ref = true;
            },
            RangeId::Virtual(i) => {
                let entry = &mut self.vlr_env[i];
                entry.is_ref = true;
            },
        }
        proof {
            assert forall|id: RangeId| self.marked().contains(id) implies old(self).marked().insert(
                *range_id,
            ).contains(id) by {}
            assert forall|id: RangeId|
                old(self).marked().insert(*range_id).contains(id) implies self.marked().contains(
                id,
            ) by {}
            assert(self.marked() =~= old(self).marked().insert(*range_id));
            assert(self.structure().real_frag_ixs =~= old(self).structure().real_frag_ixs);
            assert(self.structure().virtual_frags =~= old(self).structure().virtual_frags);
            assert(self.structure() == old(self).structure());
        }
    }
}

/// Run the reference-type analysis on the production environment.  On
/// success every range reachable from the seed registers through
/// reference-class moves has its `is_ref` flag set, and no other flag or
/// field changes; on failure nothing changes at all.
pub fn do_reftypes_analysis(
    analysis: &mut BacktrackingReftypeAnalysis,
    move_info: &MoveInfo,
    reftype_class: RegClass,
    reftyped_vregs: &Vec<VirtualReg>,
) -> (r: Result<(), AnalysisError>)
    requires
        old(analysis).inv(),
    ensures
        r is Ok <==> inputs_ok(*old(analysis), move_info@, reftype_class, reftyped_vregs@),
        r is Err ==> *final(analysis) == *old(analysis),
        r == Err::<(), AnalysisError>(AnalysisError::MoveClassMismatch) ==> !move_classes_ok(
            move_info@,
        ),
        r == Err::<(), AnalysisError>(AnalysisError::NoCoveringRange) ==> !moves_locatable(
            *old(analysis),
            move_info@,
            reftype_class,
        ),
        r == Err::<(), AnalysisError>(AnalysisError::SeedClassMismatch) ==> !seed_classes_ok(
            reftyped_vregs@,
            reftype_class,
        ),
        final(analysis).structure() == old(analysis).structure(),
        final(analysis).inv(),
        final(analysis).rlr_env@.len() == old(analysis).rlr_env@.len(),
        final(analysis).vlr_env@.len() == old(analysis).vlr_env@.len(),
        forall|i: int|
            0 <= i < old(analysis).rlr_env@.len() ==> (
            #[trigger] final(analysis).rlr_env@[i]).sorted_frags@ == old(
                analysis,
            ).rlr_env@[i].sorted_frags@,
        forall|i: int|
            0 <= i < old(analysis).vlr_env@.len() ==> (
            #[trigger] final(analysis).vlr_env@[i]).sorted_frags@ == old(
                analysis,
            ).vlr_env@[i].sorted_frags@,
        r is Ok ==> forall|i: int|
            0 <= i < old(analysis).rlr_env@.len() ==> (
            #[trigger] final(analysis).rlr_env@[i]).is_ref == (old(analysis).rlr_env@[i].is_ref
                || analysis_result(
                *old(analysis),
                move_info@,
                reftype_class,
                reftyped_vregs@,
            ).contains(RangeId::Real(i as usize))),
        r is Ok ==> forall|i: int|
            0 <= i < old(analysis).vlr_env@.len() ==> (
            #[trigger] final(analysis).vlr_env@[i]).is_ref == (old(analysis).vlr_env@[i].is_ref
                || analysis_result(
                *old(analysis),
                move_info@,
                reftype_class,
                reftyped_vregs@,
            ).contains(RangeId::Virtual(i as usize))),
{
    let ghost a0 = *analysis;
    let r = core_reftypes_analysis(analysis, move_info, reftype_class, reftyped_vregs);
    proof {
        let s0 = a0.structure();
        assert(analysis.structure() == s0);
        assert(s0.real_frag_ixs.len() == a0.rlr_env@.len());
        assert(s0.virtual_frags.len() == a0.vlr_env@.len());
        assert(analysis.rlr_env@.len() == a0.rlr_env@.len());
        assert(analysis.vlr_env@.len() == a0.vlr_env@.len());
        assert forall|i: int| 0 <= i < a0.rlr_env@.len() implies (
        #[trigger] analysis.rlr_env@[i]).sorted_frags@ == a0.rlr_env@[i].sorted_frags@ by {
            assert(analysis.structure().real_frag_ixs[i] == analysis.rlr_env@[i].sorted_frags@);
            assert(s0.real_frag_ixs[i] == a0.rlr_env@[i].sorted_frags@);
        };
        assert forall|i: int| 0 <= i < a0.vlr_env@.len() implies (
        #[trigger] analysis.vlr_env@[i]).sorted_frags@ == a0.vlr_env@[i].sorted_frags@ by {
            assert(analysis.structure().virtual_frags[i] == analysis.vlr_env@[i].sorted_frags@);
            assert(s0.virtual_frags[i] == a0.vlr_env@[i].sorted_frags@);
        };
        assert(a0.rlr_env.len() == a0.rlr_env@.len());
        assert(a0.vlr_env.len() == a0.vlr_env@.len());
        if r is Ok {
            let c = analysis_result(a0, move_info@, reftype_class, reftyped_vregs@);
            assert(analysis.marked() == a0.marked().union(c));
            assert forall|i: int| 0 <= i < a0.rlr_env@.len() implies (
            #[trigger] analysis.rlr_env@[i]).is_ref == (a0.rlr_env@[i].is_ref || c.contains(
                RangeId::Real(i as usize),
            )) by {
                assert(i == (i as usize) as int);
                let id = RangeId::Real(i as usize);
                assert(analysis.marked().contains(id) == analysis.rlr_env@[i].is_ref);
                assert(a0.marked().union(c).contains(id) == (a0.rlr_env@[i].is_ref || c.contains(
                    id,
                )));
            };
            assert forall|i: int| 0 <= i < a0.vlr_env@.len() implies (
            #[trigger] analysis.vlr_env@[i]).is_ref == (a0.vlr_env@[i].is_ref || c.contains(
                RangeId::Virtual(i as usize),
            )) by {
                assert(i == (i as usize) as int);
                let id = RangeId::Virtual(i as usize);
                assert(analysis.marked().contains(id) == analysis.vlr_env@[i].is_ref);
                assert(a0.marked().union(c).contains(id) == (a0.vlr_env@[i].is_ref || c.contains(
                    id,
                )));
            };
        }
    }
    r
}

} // verus!
