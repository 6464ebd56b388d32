//! Reachability over a directed edge relation on range identities.  The
//! propagation result is specified as exact graph reachability: an identity is
//! in the result exactly when some edge path leads to it from a seed.

use vstd::prelude::*;

use crate::data_structures::RangeId;

verus! {

/// Every consecutive pair of `p` is connected by an edge of `r`.
pub open spec fn path_ok(r: spec_fn(RangeId, RangeId) -> bool, p: Seq<RangeId>) -> bool {
    forall|i: int| 0 <= i < p.len() - 1 ==> r(#[trigger] p[i], p[i + 1])
}

/// `x` is reachable from the seed set along edges of `r` (in zero or more
/// steps).
pub open spec fn reaches(
    r: spec_fn(RangeId, RangeId) -> bool,
    seeds: Set<RangeId>,
    x: RangeId,
) -> bool {
    exists|p: Seq<RangeId>|
        p.len() > 0 && seeds.contains(#[trigger] p[0]) && p.last() == x && path_ok(r, p)
}

/// Everything reachable from the seed set along edges of `r`.
pub open spec fn reach_set(r: spec_fn(RangeId, RangeId) -> bool, seeds: Set<RangeId>) -> Set<
    RangeId,
> {
    Set::new(|x: RangeId| reaches(r, seeds, x))
}

/// `s` is closed under the edges of `r`: following an edge never leaves `s`.
pub open spec fn closed_under(r: spec_fn(RangeId, RangeId) -> bool, s: Set<RangeId>) -> bool {
    forall|x: RangeId, y: RangeId| s.contains(x) && #[trigger] r(x, y) ==> s.contains(y)
}

/// Every seed reaches itself, by the path of length one.
pub proof fn lemma_seeds_in_reach(r: spec_fn(RangeId, RangeId) -> bool, seeds: Set<RangeId>)
    ensures
        seeds.subset_of(reach_set(r, seeds)),
{
    assert forall|x: RangeId| seeds.contains(x) implies reach_set(r, seeds).contains(x) by {
        let p = seq![x];
        assert(p.len() > 0 && seeds.contains(p[0]) && p.last() == x && path_ok(r, p));
    };
}

/// One propagation step: an edge out of a reachable identity makes its target
/// reachable as well.
pub proof fn lemma_reaches_step(
    r: spec_fn(RangeId, RangeId) -> bool,
    seeds: Set<RangeId>,
    x: RangeId,
    y: RangeId,
)
    requires
        reaches(r, seeds, x),
        r(x, y),
    ensures
        reaches(r, seeds, y),
{
    let p = choose|p: Seq<RangeId>|
        p.len() > 0 && seeds.contains(#[trigger] p[0]) && p.last() == x && path_ok(r, p);
    let q = p.push(y);
    assert(q[0] == p[0]);
    assert(q.last() == y);
    assert forall|i: int| 0 <= i < q.len() - 1 implies r(#[trigger] q[i], q[i + 1]) by {
        if i < p.len() - 1 {
            assert(r(p[i], p[i + 1]));
            assert(q[i] == p[i] && q[i + 1] == p[i + 1]);
        } else {
            assert(i == p.len() - 1);
            assert(q[i] == p.last() && q[i + 1] == y);
        }
    };
    assert(q.len() > 0 && seeds.contains(q[0]) && q.last() == y && path_ok(r, q));
}

/// The reach set itself is closed under edges.
pub proof fn lemma_reach_closed(r: spec_fn(RangeId, RangeId) -> bool, seeds: Set<RangeId>)
    ensures
        closed_under(r, reach_set(r, seeds)),
{
    assert forall|x: RangeId, y: RangeId|
        reach_set(r, seeds).contains(x) && #[trigger] r(x, y) implies reach_set(
        r,
        seeds,
    ).contains(y) by {
        lemma_reaches_step(r, seeds, x, y);
    };
}

/// The end of a path from a seed stays inside any edge-closed superset of the
/// seeds.
proof fn lemma_path_end_in_closed(
    r: spec_fn(RangeId, RangeId) -> bool,
    seeds: Set<RangeId>,
    s: Set<RangeId>,
    p: Seq<RangeId>,
)
    requires
        seeds.subset_of(s),
        closed_under(r, s),
        p.len() > 0,
        seeds.contains(p[0]),
        path_ok(r, p),
    ensures
        s.contains(p.last()),
    decreases p.len(),
{
    if p.len() == 1 {
        assert(s.contains(p[0]));
    } else {
        let q = p.drop_last();
        assert forall|i: int| 0 <= i < q.len() - 1 implies r(#[trigger] q[i], q[i + 1]) by {
            assert(r(p[i], p[i + 1]));
        };
        lemma_path_end_in_closed(r, seeds, s, q);
        assert(r(p[p.len() - 2], p[p.len() - 1]));
        assert(q.last() == p[p.len() - 2]);
    }
}

/// The reach set is the least among all edge-closed supersets of the seeds.
pub proof fn lemma_reach_least(
    r: spec_fn(RangeId, RangeId) -> bool,
    seeds: Set<RangeId>,
    s: Set<RangeId>,
)
    requires
        seeds.subset_of(s),
        closed_under(r, s),
    ensures
        reach_set(r, seeds).subset_of(s),
{
    assert forall|x: RangeId| reach_set(r, seeds).contains(x) implies s.contains(x) by {
        let p = choose|p: Seq<RangeId>|
            p.len() > 0 && seeds.contains(#[trigger] p[0]) && p.last() == x && path_ok(r, p);
        lemma_path_end_in_closed(r, seeds, s, p);
    };
}

/// With no edges at all, exactly the seeds are reachable and nothing more.
pub proof fn lemma_no_edges_reach_exact(
    r: spec_fn(RangeId, RangeId) -> bool,
    seeds: Set<RangeId>,
)
    requires
        forall|x: RangeId, y: RangeId| !#[trigger] r(x, y),
    ensures
        reach_set(r, seeds) == seeds,
{
    lemma_seeds_in_reach(r, seeds);
    assert(closed_under(r, seeds));
    lemma_reach_least(r, seeds, seeds);
    assert(reach_set(r, seeds) =~= seeds);
}

/// An identity that is not a seed and has no incoming edge is never reached.
pub proof fn lemma_isolated_not_reached(
    r: spec_fn(RangeId, RangeId) -> bool,
    seeds: Set<RangeId>,
    x: RangeId,
)
    requires
        !seeds.contains(x),
        forall|y: RangeId| !#[trigger] r(y, x),
    ensures
        !reaches(r, seeds, x),
        !reach_set(r, seeds).contains(x),
{
    if reaches(r, seeds, x) {
        let p = choose|p: Seq<RangeId>|
            p.len() > 0 && seeds.contains(#[trigger] p[0]) && p.last() == x && path_ok(r, p);
        if p.len() == 1 {
            assert(seeds.contains(x));
        } else {
            assert(r(p[p.len() - 2], p[p.len() - 1]));
        }
        assert(false);
    }
}

/// Reachability only looks at the edge relation pointwise: two relations that
/// agree on every pair reach the same identities.
pub proof fn lemma_reach_congruence(
    r1: spec_fn(RangeId, RangeId) -> bool,
    r2: spec_fn(RangeId, RangeId) -> bool,
    seeds: Set<RangeId>,
)
    requires
        forall|x: RangeId, y: RangeId| #[trigger] r1(x, y) <==> #[trigger] r2(x, y),
    ensures
        reach_set(r1, seeds) == reach_set(r2, seeds),
{
    lemma_reach_subset_pointwise(r1, r2, seeds);
    lemma_reach_subset_pointwise(r2, r1, seeds);
    assert(reach_set(r1, seeds) =~= reach_set(r2, seeds));
}

/// A relation with at least the edges of another reaches at least as much.
proof fn lemma_reach_subset_pointwise(
    r1: spec_fn(RangeId, RangeId) -> bool,
    r2: spec_fn(RangeId, RangeId) -> bool,
    seeds: Set<RangeId>,
)
    requires
        forall|x: RangeId, y: RangeId| #[trigger] r1(x, y) ==> #[trigger] r2(x, y),
    ensures
        reach_set(r1, seeds).subset_of(reach_set(r2, seeds)),
{
    assert forall|x: RangeId| reach_set(r1, seeds).contains(x) implies reach_set(
        r2,
        seeds,
    ).contains(x) by {
        let p = choose|p: Seq<RangeId>|
            p.len() > 0 && seeds.contains(#[trigger] p[0]) && p.last() == x && path_ok(r1, p);
        assert forall|i: int| 0 <= i < p.len() - 1 implies r2(#[trigger] p[i], p[i + 1]) by {
            assert(r1(p[i], p[i + 1]));
        };
        assert(p.len() > 0 && seeds.contains(p[0]) && p.last() == x && path_ok(r2, p));
    };
}

/// Marking is idempotent: adding the reach set a second time to an already
/// extended marked set changes nothing.
pub proof fn lemma_rerun_adds_nothing(
    r: spec_fn(RangeId, RangeId) -> bool,
    seeds: Set<RangeId>,
    marked: Set<RangeId>,
)
    ensures
        marked.union(reach_set(r, seeds)).union(reach_set(r, seeds)) == marked.union(
            reach_set(r, seeds),
        ),
{
    assert(marked.union(reach_set(r, seeds)).union(reach_set(r, seeds)) =~= marked.union(
        reach_set(r, seeds),
    ));
}

} // verus!
