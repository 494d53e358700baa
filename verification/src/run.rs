//! Short runs of values: gathered in one pass, kept inline while they are few.

use crate::value::Carried;
use smallvec::SmallVec;
use vstd::prelude::*;

verus! {

/// A run of values in a [`SmallVec`], which keeps up to eight of them inline.
#[verifier::external_body]
pub struct CellRun {
    items: SmallVec<[Carried; 8]>,
}

/// The values of a run, in order.
pub uninterp spec fn run_items(run: CellRun) -> Seq<Carried>;

/// Whether a run of `count` values can be stored: beyond this the rounded-up buffer could pass
/// what one allocation may hold.
pub open spec fn storable(count: nat) -> bool {
    count <= usize::MAX / 128
}

impl CellRun {
    /// Gathers `values` into a run, by `FromIterator::from_iter` of [`SmallVec`], which appends
    /// what the iterator yields, in order. It panics only where the capacity that it rounds up to
    /// exceeds what one allocation may hold, which the bound on the count rules out.
    #[verifier::external_body]
    pub(crate) fn gather(values: &Vec<Carried>) -> (r: CellRun)
        requires
            storable(values@.len()),
        ensures
            run_items(r) == values@,
    {
        CellRun { items: values.iter().copied().collect() }
    }

    /// How many values the run holds, by [`SmallVec::len`].
    #[verifier::external_body]
    pub(crate) fn count(&self) -> (r: usize)
        ensures
            r == run_items(*self).len(),
    {
        self.items.len()
    }

    /// The value at `at`, by `Index::index` of [`SmallVec`], which reads the slice of its items
    /// and panics outside of it.
    #[verifier::external_body]
    pub(crate) fn at(&self, at: usize) -> (r: Carried)
        requires
            at < run_items(*self).len(),
        ensures
            r == run_items(*self)[at as int],
    {
        self.items[at]
    }
}

} // verus!
