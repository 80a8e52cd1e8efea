//! Trusted boundary around the bit-set crate.
//!
//! `BitSet` holds a `bit_set::BitSet` and is viewed in specifications as
//! the mathematical set of indices whose bits are set. The methods below
//! are the only places that call into the crate; each states over the view
//! exactly what the called function's source shows.

use vstd::prelude::*;

verus! {

/// A set of small unsigned integers, stored as a bit vector.
#[verifier::external_body]
pub struct BitSet {
    inner: bit_set::BitSet,
}

/// The set of indices whose bits are set.
pub uninterp spec fn bits_of(s: BitSet) -> Set<usize>;

impl BitSet {
    /// Relies on bit_set::BitSet::new: the new set has no bits set.
    #[verifier::external_body]
    pub fn new() -> (r: Self)
        ensures
            bits_of(r) == Set::<usize>::empty(),
    {
        BitSet { inner: bit_set::BitSet::new() }
    }

    /// Relies on bit_set::BitSet::contains: membership test for one index.
    #[verifier::external_body]
    pub fn contains(&self, value: usize) -> (r: bool)
        ensures
            r == bits_of(*self).contains(value),
    {
        self.inner.contains(value)
    }

    /// Relies on bit_set::BitSet::insert: sets the bit and reports whether
    /// it was clear before.
    #[verifier::external_body]
    pub fn insert(&mut self, value: usize) -> (r: bool)
        ensures
            bits_of(*final(self)) == bits_of(*old(self)).insert(value),
            r == !bits_of(*old(self)).contains(value),
    {
        self.inner.insert(value)
    }

    /// Relies on bit_set::BitSet::remove: clears the bit and reports
    /// whether it was set before.
    #[verifier::external_body]
    pub fn remove(&mut self, value: usize) -> (r: bool)
        ensures
            bits_of(*final(self)) == bits_of(*old(self)).remove(value),
            r == bits_of(*old(self)).contains(value),
    {
        self.inner.remove(value)
    }

    /// Relies on bit_set::BitSet::count: the number of set bits.
    #[verifier::external_body]
    pub fn len(&self) -> (r: usize)
        ensures
            r == bits_of(*self).len(),
    {
        self.inner.count()
    }

    /// Relies on bit_set::BitSet's PartialEq: it compares the two member
    /// sequences, so it decides exactly set equality.
    #[verifier::external_body]
    pub fn eq_set(&self, other: &BitSet) -> (r: bool)
        ensures
            r == (bits_of(*self) == bits_of(*other)),
    {
        self.inner == other.inner
    }

    /// Relies on bit_set::BitSet::union_with: in-place union.
    #[verifier::external_body]
    pub fn union_with(&mut self, other: &BitSet)
        ensures
            bits_of(*final(self)) == bits_of(*old(self)).union(bits_of(*other)),
    {
        self.inner.union_with(&other.inner)
    }

    /// Relies on bit_set::BitSet::intersect_with: in-place intersection.
    #[verifier::external_body]
    pub fn intersect_with(&mut self, other: &BitSet)
        ensures
            bits_of(*final(self)) == bits_of(*old(self)).intersect(bits_of(*other)),
    {
        self.inner.intersect_with(&other.inner)
    }

    /// Relies on bit_set::BitSet::is_subset: every index here is in `other`.
    #[verifier::external_body]
    pub fn is_subset(&self, other: &BitSet) -> (r: bool)
        ensures
            r == bits_of(*self).subset_of(bits_of(*other)),
    {
        self.inner.is_subset(&other.inner)
    }

    /// Relies on bit_set::BitSet::is_disjoint: no index is in both sets.
    #[verifier::external_body]
    pub fn is_disjoint(&self, other: &BitSet) -> (r: bool)
        ensures
            r == bits_of(*self).disjoint(bits_of(*other)),
    {
        self.inner.is_disjoint(&other.inner)
    }

    /// Relies on bit_set::BitSet::iter: it yields the members in strictly
    /// ascending order, least significant bit of each block first.
    #[verifier::external_body]
    pub fn to_vec(&self) -> (r: Vec<usize>)
        ensures
            forall|v: usize| r@.contains(v) <==> bits_of(*self).contains(v),
            forall|i: int, j: int| 0 <= i < j < r@.len() ==> r@[i] < r@[j],
    {
        self.inner.iter().collect()
    }
}

impl Clone for BitSet {
    /// Relies on bit_set::BitSet::clone: the copy holds the same indices.
    #[verifier::external_body]
    fn clone(&self) -> (r: Self)
        ensures
            bits_of(r) == bits_of(*self),
    {
        BitSet { inner: self.inner.clone() }
    }
}

} // verus!
