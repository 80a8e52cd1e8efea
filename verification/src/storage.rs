//! Per-type column storage: a raw value container addressed by entity id,
//! guarded by a presence bitset. All public access goes through the
//! bitset guard; reading an absent raw slot is excluded by contract.

use vstd::prelude::*;

use crate::bits::bits_of;
use crate::bits::BitSet;
use crate::component::Component;

verus! {

/// The index a column is addressed by: the entity id.
pub type Index = usize;

/// A raw, pluggable value container addressed directly by entity id.
/// Absent slots may only be read through the guard of `MaskedStorage`.
pub trait RawStorage<T>: Sized {
    /// The values currently held, keyed by index.
    spec fn contents(&self) -> Map<usize, T>;

    /// A container holding nothing.
    fn empty() -> (r: Self)
        ensures
            r.contents() == Map::<usize, T>::empty(),
    ;

    fn contains(&self, index: Index) -> (r: bool)
        ensures
            r == self.contents().dom().contains(index),
    ;

    fn get(&self, index: Index) -> (r: &T)
        requires
            self.contents().dom().contains(index),
        ensures
            *r == self.contents()[index],
    ;

    fn get_mut(&mut self, index: Index) -> (r: &mut T)
        requires
            old(self).contents().dom().contains(index),
        ensures
            *r == old(self).contents()[index],
            final(self).contents() == old(self).contents().insert(index, *final(r)),
    ;

    fn insert(&mut self, index: Index, component: T)
        ensures
            final(self).contents() == old(self).contents().insert(index, component),
    ;

    fn remove(&mut self, index: Index) -> (r: T)
        requires
            old(self).contents().dom().contains(index),
        ensures
            r == old(self).contents()[index],
            final(self).contents() == old(self).contents().remove(index),
    ;
}

/// A dense, growable column: a vector of optional slots indexed by
/// entity id, grown on demand.
pub struct VecStorage<T> {
    slots: Vec<Option<T>>,
}

impl<T> VecStorage<T> {
    pub fn new() -> (r: Self)
        ensures
            r.contents() == Map::<usize, T>::empty(),
    {
        <Self as RawStorage<T>>::empty()
    }
}

impl<T> RawStorage<T> for VecStorage<T> {
    closed spec fn contents(&self) -> Map<usize, T> {
        Map::new(
            |i: usize| i < self.slots@.len() && self.slots@[i as int] is Some,
            |i: usize| self.slots@[i as int].unwrap(),
        )
    }

    fn empty() -> (r: Self) {
        let r = VecStorage { slots: Vec::new() };
        proof {
            assert(r.contents() =~= Map::<usize, T>::empty());
        }
        r
    }

    fn contains(&self, index: Index) -> (r: bool) {
        index < self.slots.len() && self.slots[index].is_some()
    }

    fn get(&self, index: Index) -> (r: &T) {
        match &self.slots[index] {
            Some(v) => v,
            None => vstd::pervasive::unreached(),
        }
    }

    fn get_mut(&mut self, index: Index) -> (r: &mut T) {
        let slot = &mut self.slots[index];
        match slot {
            Some(v) => v,
            None => vstd::pervasive::unreached(),
        }
    }

    fn insert(&mut self, index: Index, component: T) {
        while self.slots.len() <= index
            invariant
                forall|j: int|
                    0 <= j < old(self).slots@.len() ==> self.slots@[j] == old(self).slots@[j],
                forall|j: int|
                    old(self).slots@.len() <= j < self.slots@.len() ==> self.slots@[j] is None,
                self.slots@.len() >= old(self).slots@.len(),
            decreases index - self.slots@.len() + 1,
        {
            self.slots.push(None);
        }
        let slot = &mut self.slots[index];
        *slot = Some(component);
        proof {
            assert(final(self).contents() =~= old(self).contents().insert(index, component));
        }
    }

    fn remove(&mut self, index: Index) -> (r: T) {
        let slot = &mut self.slots[index];
        let mut taken: Option<T> = None;
        std::mem::swap(slot, &mut taken);
        proof {
            assert(final(self).contents() =~= old(self).contents().remove(index));
        }
        match taken {
            Some(v) => v,
            None => vstd::pervasive::unreached(),
        }
    }
}

/// A column for one component type: the raw container of the type's
/// chosen storage strategy, behind its presence bitset.
pub struct MaskedStorage<T: Component> {
    mask: BitSet,
    raw: T::Storage,
}

impl<T: Component> MaskedStorage<T> {
    /// The column: entity id to stored component value.
    pub closed spec fn contents(self) -> Map<usize, T> {
        self.raw.contents()
    }

    /// The presence bitset mirrors the raw container's domain exactly.
    pub closed spec fn wf(self) -> bool {
        bits_of(self.mask) == self.raw.contents().dom()
    }

    pub fn new() -> (r: Self)
        ensures
            r.wf(),
            r.contents() == Map::<usize, T>::empty(),
    {
        let r = MaskedStorage { mask: BitSet::new(), raw: <T::Storage as RawStorage<T>>::empty() };
        proof {
            assert(bits_of(r.mask) =~= Map::<usize, T>::empty().dom());
        }
        r
    }

    /// A copy of the presence bitset: the entities this column has.
    pub fn entities(&self) -> (r: BitSet)
        requires
            self.wf(),
        ensures
            bits_of(r) == self.contents().dom(),
    {
        self.mask.clone()
    }

    pub fn contains(&self, index: Index) -> (r: bool)
        requires
            self.wf(),
        ensures
            r == self.contents().dom().contains(index),
    {
        self.mask.contains(index)
    }

    pub fn get(&self, index: Index) -> (r: Option<&T>)
        requires
            self.wf(),
        ensures
            match r {
                Some(v) => self.contents().dom().contains(index) && *v == self.contents()[index],
                None => !self.contents().dom().contains(index),
            },
    {
        if self.mask.contains(index) {
            Some(self.raw.get(index))
        } else {
            None
        }
    }

    /// Mutable access to the component of an entity this column has.
    /// Asking for an absent entity is a caller error, excluded here;
    /// `contains` decides presence first.
    pub fn get_mut(&mut self, index: Index) -> (r: &mut T)
        requires
            old(self).wf(),
            old(self).contents().dom().contains(index),
        ensures
            *r == old(self).contents()[index],
            final(self).wf(),
            final(self).contents() == old(self).contents().insert(index, *final(r)),
    {
        proof {
            assert(old(self).raw.contents().dom().insert(index) =~= old(
                self,
            ).raw.contents().dom());
        }
        self.raw.get_mut(index)
    }

    /// Replaces the component when present, else stores it and sets the
    /// presence bit; no remove-then-insert ordering is observable.
    pub fn insert(&mut self, index: Index, component: T)
        requires
            old(self).wf(),
        ensures
            final(self).wf(),
            final(self).contents() == old(self).contents().insert(index, component),
    {
        if self.mask.contains(index) {
            let slot = self.raw.get_mut(index);
            *slot = component;
        } else {
            self.mask.insert(index);
            self.raw.insert(index, component);
        }
        proof {
            assert(bits_of(self.mask) =~= self.raw.contents().dom());
        }
    }

    /// Clears the presence bit and yields the prior value if present.
    pub fn remove(&mut self, index: Index) -> (r: Option<T>)
        requires
            old(self).wf(),
        ensures
            final(self).wf(),
            match r {
                Some(v) => old(self).contents().dom().contains(index) && v == old(
                    self,
                ).contents()[index] && final(self).contents() == old(self).contents().remove(
                    index,
                ),
                None => !old(self).contents().dom().contains(index) && final(self).contents()
                    == old(self).contents(),
            },
    {
        if self.mask.contains(index) {
            self.mask.remove(index);
            let v = self.raw.remove(index);
            proof {
                assert(bits_of(self.mask) =~= self.raw.contents().dom());
            }
            Some(v)
        } else {
            None
        }
    }
}

/// After an insertion the component is present with exactly the inserted
/// value; after a removal it is absent; a second insertion replaces the
/// value without changing presence.
pub proof fn lemma_column_insert_remove<T>(column: Map<usize, T>, e: usize, v: T, w: T)
    ensures
        column.insert(e, v).dom().contains(e),
        column.insert(e, v)[e] == v,
        !column.insert(e, v).remove(e).dom().contains(e),
        column.insert(e, v).insert(e, w)[e] == w,
        column.insert(e, v).insert(e, w).dom() == column.insert(e, v).dom(),
{
    assert(column.insert(e, v).insert(e, w).dom() =~= column.insert(e, v).dom());
}

} // verus!
