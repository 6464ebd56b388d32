//! The move graph: for each source range identity, the set of destination
//! range identities connected to it by at least one qualifying move.  It is
//! rebuilt for every run of the analysis and discarded afterwards.

use vstd::prelude::*;

use crate::data_structures::RangeId;
use crate::sparse_set::SparseSet;

verus! {

/// One adjacency entry: a source identity and its destination set.
#[derive(Debug)]
pub struct GraphEntry {
    pub src: RangeId,
    pub dsts: SparseSet,
}

/// Adjacency structure of the move graph.
#[derive(Debug)]
pub struct MoveGraph {
    pub entries: Vec<GraphEntry>,
}

impl MoveGraph {
    /// Each source identity has at most one entry, and every destination set
    /// is well formed.
    pub open spec fn inv(&self) -> bool {
        &&& forall|i: int, j: int|
            0 <= i < self.entries@.len() && 0 <= j < self.entries@.len() && i != j
                ==> #[trigger] self.entries@[i].src != #[trigger] self.entries@[j].src
        &&& forall|i: int| 0 <= i < self.entries@.len() ==> (#[trigger] self.entries@[i]).dsts.inv()
    }

    /// The graph has an edge from `x` to `y`.
    pub open spec fn has_edge(&self, x: RangeId, y: RangeId) -> bool {
        exists|i: int|
            0 <= i < self.entries@.len() && (#[trigger] self.entries@[i]).src == x
                && self.entries@[i].dsts@.contains(y)
    }

    /// The empty graph.
    pub fn new() -> (r: MoveGraph)
        ensures
            r.inv(),
            forall|x: RangeId, y: RangeId| !r.has_edge(x, y),
    {
        MoveGraph { entries: Vec::new() }
    }

    /// The position of the entry for source `x`, if there is one.
    fn find_entry(&self, x: RangeId) -> (r: Option<usize>)
        ensures
            (match r {
                Some(i) => i < self.entries@.len() && self.entries@[i as int].src == x,
                None => forall|j: int|
                    0 <= j < self.entries@.len() ==> (#[trigger] self.entries@[j]).src != x,
            }),
    {
        let n = self.entries.len();
        let mut i: usize = 0;
        while i < n
            invariant
                n == self.entries@.len(),
                0 <= i <= n,
                forall|j: int| 0 <= j < i ==> (#[trigger] self.entries@[j]).src != x,
            decreases n - i,
        {
            if self.entries[i].src == x {
                return Some(i);
            }
            i = i + 1;
        }
        None
    }

    /// Insert the edge from `x` to `y`; inserting an edge already present has
    /// no effect.
    pub fn add_edge(&mut self, x: RangeId, y: RangeId)
        requires
            old(self).inv(),
        ensures
            final(self).inv(),
            forall|a: RangeId, b: RangeId|
                final(self).has_edge(a, b) <==> (old(self).has_edge(a, b) || (a == x && b == y)),
    {
        let found = self.find_entry(x);
        match found {
            Some(i) => {
                let entry = &mut self.entries[i];
                entry.dsts.insert(y);
                proof {
                    assert(self.entries@[i as int].src == x);
                    assert(self.entries@[i as int].dsts@ == old(self).entries@[i as int].dsts@.insert(
                    y));
                    assert forall|a: RangeId, b: RangeId| final(self).has_edge(a, b) implies (old(
                        self,
                    ).has_edge(a, b) || (a == x && b == y)) by {
                        let k = choose|k: int|
                            0 <= k < self.entries@.len() && (#[trigger] self.entries@[k]).src == a
                                && self.entries@[k].dsts@.contains(b);
                        if k != i {
                            assert(old(self).entries@[k] == self.entries@[k]);
                        } else {
                            if b != y {
                                assert(old(self).entries@[k].dsts@.contains(b));
                            }
                        }
                    };
                    assert forall|a: RangeId, b: RangeId|
                        old(self).has_edge(a, b) implies final(self).has_edge(a, b) by {
                        let k = choose|k: int|
                            0 <= k < old(self).entries@.len() && (#[trigger] old(
                                self,
                            ).entries@[k]).src == a && old(self).entries@[k].dsts@.contains(b);
                        if k == i {
                            assert(self.entries@[k].src == a && self.entries@[k].dsts@.contains(b));
                        } else {
                            assert(self.entries@[k] == old(self).entries@[k]);
                        }
                    };
                    assert(final(self).has_edge(x, y)) by {
                        assert(self.entries@[i as int].src == x && self.entries@[i as int].dsts@.contains(
                        y));
                    };
                }
            },
            None => {
                let mut ds = SparseSet::new();
                ds.insert(y);
                let n = self.entries.len();
                self.entries.push(GraphEntry { src: x, dsts: ds });
                proof {
                    assert(ds@ == Set::<RangeId>::empty().insert(y));
                    assert forall|a: RangeId, b: RangeId| final(self).has_edge(a, b) implies (old(
                        self,
                    ).has_edge(a, b) || (a == x && b == y)) by {
                        let k = choose|k: int|
                            0 <= k < self.entries@.len() && (#[trigger] self.entries@[k]).src == a
                                && self.entries@[k].dsts@.contains(b);
                        if k < n {
                            assert(old(self).entries@[k] == self.entries@[k]);
                        }
                    };
                    assert forall|a: RangeId, b: RangeId|
                        old(self).has_edge(a, b) implies final(self).has_edge(a, b) by {
                        let k = choose|k: int|
                            0 <= k < old(self).entries@.len() && (#[trigger] old(
                                self,
                            ).entries@[k]).src == a && old(self).entries@[k].dsts@.contains(b);
                        assert(self.entries@[k] == old(self).entries@[k]);
                    };
                    assert(final(self).has_edge(x, y)) by {
                        assert(self.entries@[n as int].src == x && self.entries@[n as int].dsts@.contains(
                        y));
                    };
                }
            },
        }
    }

    /// The destination set of `x`: `None` when `x` has no outgoing edge.
    pub fn lookup(&self, x: RangeId) -> (r: Option<&SparseSet>)
        requires
            self.inv(),
        ensures
            (match r {
                Some(s) => s.inv() && forall|y: RangeId|
                    #[trigger] s@.contains(y) <==> self.has_edge(x, y),
                None => forall|y: RangeId| !self.has_edge(x, y),
            }),
    {
        let found = self.find_entry(x);
        match found {
            Some(i) => {
                let s = &self.entries[i].dsts;
                proof {
                    assert forall|y: RangeId| #[trigger] s@.contains(y) implies self.has_edge(
                        x,
                        y,
                    ) by {
                        assert(self.entries@[i as int].src == x && self.entries@[i as int].dsts@.contains(
                        y));
                    };
                    assert forall|y: RangeId| self.has_edge(x, y) implies s@.contains(y) by {
                        let k = choose|k: int|
                            0 <= k < self.entries@.len() && (#[trigger] self.entries@[k]).src == x
                                && self.entries@[k].dsts@.contains(y);
                        assert(k == i);
                    };
                }
                Some(s)
            },
            None => {
                proof {
                    assert forall|y: RangeId| !self.has_edge(x, y) by {
                        if self.has_edge(x, y) {
                            let k = choose|k: int|
                                0 <= k < self.entries@.len() && (#[trigger] self.entries@[k]).src
                                    == x && self.entries@[k].dsts@.contains(y);
                        }
                    };
                }
                None
            },
        }
    }
}

} // verus!
