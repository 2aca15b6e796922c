//! Sets of handles, kept in the hash set that the engine's utilities provide.
//!
//! Tiles, gems and cards are all known by a `u64` handle. Groups of them are
//! held in a [`bevy_utils::HashSet`], which this module wraps: the verifier
//! does not look inside the hash set, so every function here that touches it
//! states what the hash set's documentation promises and is believed, not
//! proved.

use vstd::prelude::*;

verus! {

/// A set of `u64` handles, stored in a `bevy_utils::HashSet<u64>`.
///
/// The verifier treats the value as opaque; [`id_set_contents`] names what
/// it holds.
#[verifier::external_body]
pub struct IdSet {
    inner: bevy_utils::HashSet<u64>,
}

/// The handles that a set holds.
pub uninterp spec fn id_set_contents(set: IdSet) -> Set<u64>;

impl View for IdSet {
    type V = Set<u64>;

    open spec fn view(&self) -> Set<u64> {
        id_set_contents(*self)
    }
}

impl IdSet {
    /// `HashSet::default`: a set that holds nothing.
    #[verifier::external_body]
    pub(crate) fn empty() -> (set: IdSet)
        ensures
            id_set_contents(set) == Set::<u64>::empty(),
    {
        IdSet { inner: bevy_utils::HashSet::default() }
    }

    /// `HashSet::len`: how many handles the set holds.
    #[verifier::external_body]
    pub(crate) fn len(&self) -> (count: usize)
        ensures
            count == id_set_contents(*self).len(),
    {
        self.inner.len()
    }

    /// `HashSet::contains`: whether the handle is in the set.
    #[verifier::external_body]
    pub(crate) fn contains(&self, id: u64) -> (found: bool)
        ensures
            found == id_set_contents(*self).contains(id),
    {
        self.inner.contains(&id)
    }

    /// `HashSet::insert`: the handle joins the set; the answer is `true` when
    /// it was not there before.
    #[verifier::external_body]
    pub(crate) fn insert(&mut self, id: u64) -> (fresh: bool)
        ensures
            id_set_contents(*final(self)) == id_set_contents(*old(self)).insert(id),
            fresh == !id_set_contents(*old(self)).contains(id),
    {
        self.inner.insert(id)
    }

    /// `HashSet::remove`: the handle leaves the set; the answer is `true`
    /// when it was there.
    #[verifier::external_body]
    pub(crate) fn remove(&mut self, id: u64) -> (present: bool)
        ensures
            id_set_contents(*final(self)) == id_set_contents(*old(self)).remove(id),
            present == id_set_contents(*old(self)).contains(id),
    {
        self.inner.remove(&id)
    }

    /// `HashSet::is_disjoint`: whether the two sets share no handle.
    #[verifier::external_body]
    pub(crate) fn is_disjoint(&self, other: &IdSet) -> (apart: bool)
        ensures
            apart == id_set_contents(*self).disjoint(id_set_contents(*other)),
    {
        self.inner.is_disjoint(&other.inner)
    }

    /// `Extend::extend` with another set's handles: afterwards the set holds
    /// what either held.
    #[verifier::external_body]
    pub(crate) fn absorb(&mut self, other: IdSet)
        ensures
            id_set_contents(*final(self)) == id_set_contents(*old(self)).union(id_set_contents(other)),
    {
        self.inner.extend(other.inner);
    }

    /// `HashSet::iter`, collected: every handle of the set exactly once, in
    /// the order in which the hash set walks them, which is not fixed.
    #[verifier::external_body]
    pub(crate) fn members(&self) -> (ids: Vec<u64>)
        ensures
            ids@.no_duplicates(),
            ids@.to_set() == id_set_contents(*self),
    {
        self.inner.iter().copied().collect()
    }

    /// `HashSet::drain`, collected: every handle of the set exactly once, in
    /// an order that is not fixed; the set is empty afterwards.
    #[verifier::external_body]
    pub(crate) fn take_all(&mut self) -> (ids: Vec<u64>)
        ensures
            ids@.no_duplicates(),
            ids@.to_set() == id_set_contents(*old(self)),
            id_set_contents(*final(self)) == Set::<u64>::empty(),
    {
        self.inner.drain().collect()
    }
}

} // verus!
