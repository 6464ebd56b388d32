//! A small, sparse set of range identities, used for adjacency sets, the seed
//! set and the visited set.  It is a vector without duplicates, viewed as a
//! mathematical set; no iteration order is promised.

use vstd::prelude::*;

use crate::data_structures::RangeId;

verus! {

/// A set of range identities backed by a duplicate-free vector.
#[derive(Debug)]
pub struct SparseSet {
    pub elems: Vec<RangeId>,
}

impl View for SparseSet {
    type V = Set<RangeId>;

    open spec fn view(&self) -> Set<RangeId> {
        self.elems@.to_set()
    }
}

impl SparseSet {
    /// The backing vector holds each member exactly once.
    pub open spec fn inv(&self) -> bool {
        self.elems@.no_duplicates()
    }

    /// The empty set.
    pub fn new() -> (r: SparseSet)
        ensures
            r.inv(),
            r@ == Set::<RangeId>::empty(),
            r.elems@ == Seq::<RangeId>::empty(),
    {
        let r = SparseSet { elems: Vec::new() };
        proof {
            assert(r@ =~= Set::<RangeId>::empty());
        }
        r
    }

    /// Membership test.
    pub fn contains(&self, x: RangeId) -> (r: bool)
        ensures
            r == self@.contains(x),
    {
        let n = self.elems.len();
        let mut i: usize = 0;
        while i < n
            invariant
                n == self.elems@.len(),
                0 <= i <= n,
                forall|j: int| 0 <= j < i ==> self.elems@[j] != x,
            decreases n - i,
        {
            if self.elems[i] == x {
                return true;
            }
            i = i + 1;
        }
        proof {
            assert(!self.elems@.contains(x));
        }
        false
    }

    /// Insert `x`; inserting a member again has no effect.
    pub fn insert(&mut self, x: RangeId)
        requires
            old(self).inv(),
        ensures
            final(self).inv(),
            final(self)@ == old(self)@.insert(x),
            old(self)@.contains(x) ==> final(self).elems@ == old(self).elems@,
            !old(self)@.contains(x) ==> final(self).elems@ == old(self).elems@.push(x),
    {
        if !self.contains(x) {
            self.elems.push(x);
            proof {
                let oldseq = old(self).elems@;
                let n = oldseq.len() as int;
                assert(self.elems@ == oldseq.push(x));
                assert(!oldseq.contains(x));
                assert(self.elems@[n] == x);
                assert(self.elems@.contains(x));
                assert forall|y: RangeId| #[trigger] self.elems@.contains(y) implies (
                oldseq.contains(y) || y == x) by {
                    let i = choose|i: int| 0 <= i < self.elems@.len() && self.elems@[i] == y;
                    if i < n {
                        assert(oldseq[i] == y);
                    }
                };
                assert forall|y: RangeId| #[trigger] oldseq.contains(y) implies self.elems@.contains(
                y) by {
                    let i = choose|i: int| 0 <= i < oldseq.len() && oldseq[i] == y;
                    assert(self.elems@[i] == y);
                };
                assert(self@ =~= old(self)@.insert(x));
                assert forall|i: int, j: int|
                    0 <= i < self.elems@.len() && 0 <= j < self.elems@.len() && i
                        != j implies self.elems@[i] != self.elems@[j] by {
                    if i < n && j < n {
                        assert(oldseq[i] != oldseq[j]);
                    } else if i < n && j == n {
                        assert(oldseq.contains(oldseq[i]));
                    } else if j < n && i == n {
                        assert(oldseq.contains(oldseq[j]));
                    }
                };
                assert(self.elems@.no_duplicates());
            }
        } else {
            proof {
                assert(self@ =~= old(self)@.insert(x));
            }
        }
    }

    /// How many members the set has.
    pub fn len(&self) -> (r: usize)
        ensures
            r == self.elems@.len(),
            self.inv() ==> r == self@.len(),
    {
        proof {
            if self.inv() {
                self.elems@.unique_seq_to_set();
            }
        }
        self.elems.len()
    }

    /// The member at position `i` of the backing vector, for iteration.
    pub fn at(&self, i: usize) -> (r: RangeId)
        requires
            i < self.elems@.len(),
        ensures
            r == self.elems@[i as int],
            self@.contains(r),
    {
        proof {
            assert(self.elems@.contains(self.elems@[i as int]));
        }
        self.elems[i]
    }

    /// An independent copy with the same members.
    pub fn duplicate(&self) -> (r: SparseSet)
        ensures
            r.elems@ == self.elems@,
            r@ == self@,
            self.inv() ==> r.inv(),
    {
        let n = self.elems.len();
        let mut v: Vec<RangeId> = Vec::new();
        let mut i: usize = 0;
        while i < n
            invariant
                n == self.elems@.len(),
                0 <= i <= n,
                v@ == self.elems@.subrange(0, i as int),
            decreases n - i,
        {
            v.push(self.elems[i]);
            i = i + 1;
        }
        proof {
            assert(v@ == self.elems@.subrange(0, n as int));
            assert(self.elems@.subrange(0, n as int) == self.elems@);
        }
        SparseSet { elems: v }
    }
}

} // verus!
