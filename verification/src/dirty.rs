//! The dirty set: element ids whose focus-indicator state changed since the
//! last drain.
//!
//! The set is kept in a `rustc_hash::FxHashSet`, which Verus cannot look
//! into; it is held behind a small trusted surface whose contracts state
//! plain set semantics, and everything built on top is verified against the
//! abstract contents.

use vstd::prelude::*;

verus! {

/// A set of element ids, backed by `rustc_hash::FxHashSet<u64>`.
#[verifier::external_body]
pub struct DirtyNodes {
    inner: rustc_hash::FxHashSet<u64>,
}

/// The ids a `DirtyNodes` value holds.
pub uninterp spec fn dirty_contents(d: &DirtyNodes) -> Set<u64>;

impl DirtyNodes {
    /// Relies on `FxHashSet::default` (std `HashSet::default` with the Fx
    /// hasher): a fresh set is empty.
    #[verifier::external_body]
    pub fn new() -> (r: Self)
        ensures
            dirty_contents(&r) == Set::<u64>::empty(),
    {
        DirtyNodes { inner: rustc_hash::FxHashSet::default() }
    }

    /// Relies on std `HashSet::insert`: afterwards the set holds the given
    /// id as well as everything it held before.
    #[verifier::external_body]
    pub fn insert(&mut self, id: u64)
        ensures
            dirty_contents(final(self)) == dirty_contents(old(self)).insert(id),
    {
        self.inner.insert(id);
    }

    /// Relies on `std::mem::take`: the whole current contents move into the
    /// returned set and this one is left empty.
    #[verifier::external_body]
    pub fn take(&mut self) -> (r: Self)
        ensures
            dirty_contents(&r) == dirty_contents(old(self)),
            dirty_contents(final(self)) == Set::<u64>::empty(),
    {
        DirtyNodes { inner: std::mem::take(&mut self.inner) }
    }

    /// Relies on std `HashSet` iteration visiting each element exactly once
    /// (in no promised order).
    #[verifier::external_body]
    pub fn items(&self) -> (r: Vec<u64>)
        ensures
            r@.to_set() == dirty_contents(self),
            r@.no_duplicates(),
    {
        self.inner.iter().copied().collect()
    }
}

} // verus!
