//! The work stack of the depth-first search, kept in a `smallvec::SmallVec`
//! so that short copy chains need no heap allocation.  The stack is trusted:
//! its contents are named by `stack_model`, and each operation's contract
//! states what `smallvec`'s source shows.

use vstd::prelude::*;

use crate::data_structures::RangeId;
use smallvec::SmallVec;

verus! {

/// A last-in-first-out stack of range identities, backed by
/// `smallvec::SmallVec` with room for 64 elements before it spills to the
/// heap.
#[verifier::external_body]
pub struct WorkStack {
    inner: SmallVec<[RangeId; 64]>,
}

/// The elements a work stack holds, bottom first.
pub uninterp spec fn stack_model(s: WorkStack) -> Seq<RangeId>;

/// Relies on smallvec::SmallVec::new: a freshly created vector is empty.
#[verifier::external_body]
pub(crate) fn stack_new() -> (r: WorkStack)
    ensures
        stack_model(r) == Seq::<RangeId>::empty(),
{
    WorkStack { inner: SmallVec::new() }
}

/// Relies on smallvec::SmallVec::push: appends the value after the existing
/// elements.
#[verifier::external_body]
pub(crate) fn stack_push(s: &mut WorkStack, x: RangeId)
    ensures
        stack_model(*final(s)) == stack_model(*old(s)).push(x),
{
    s.inner.push(x);
}

/// Relies on smallvec::SmallVec::pop: removes and returns the last element,
/// or returns `None` and changes nothing when the vector is empty.
#[verifier::external_body]
pub(crate) fn stack_pop(s: &mut WorkStack) -> (r: Option<RangeId>)
    ensures
        stack_model(*old(s)).len() == 0 ==> r is None && stack_model(*final(s)) == stack_model(
            *old(s),
        ),
        stack_model(*old(s)).len() > 0 ==> r == Some(stack_model(*old(s)).last()) && stack_model(
            *final(s),
        ) == stack_model(*old(s)).drop_last(),
{
    s.inner.pop()
}

/// Relies on smallvec::SmallVec::is_empty: true exactly when the vector holds
/// no elements.
#[verifier::external_body]
pub(crate) fn stack_is_empty(s: &WorkStack) -> (r: bool)
    ensures
        r == (stack_model(*s).len() == 0),
{
    s.inner.is_empty()
}

} // verus!
