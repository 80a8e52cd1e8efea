//! The join/query layer: the intersection of several columns' presence
//! sets, snapshotted once, iterated in ascending id order, yielding the
//! columns' values per id.

use vstd::prelude::*;

use crate::bits::bits_of;
use crate::bits::BitSet;
use crate::component::Component;
use crate::storage::MaskedStorage;

verus! {

/// A source of joinable data: a set of ids, and a value per id it has.
/// A single column view is a source; so is a pair of sources, whose id
/// set is the intersection of the two; the empty source has no ids.
pub trait Join {
    type Item;

    /// What the source needs before it is opened.
    spec fn wf(&self) -> bool;

    /// The ids this source has.
    spec fn open_spec(&self) -> Set<usize>;

    /// Whether a yielded value is the right one for an id.
    spec fn item_ok(&self, index: usize, item: Self::Item) -> bool;

    /// The presence bitset: exactly the ids this source has.
    fn open(&self) -> (r: BitSet)
        requires
            self.wf(),
        ensures
            bits_of(r) == self.open_spec(),
    ;

    /// The value for one id the source has.
    fn get(&self, index: usize) -> (r: Self::Item)
        requires
            self.wf(),
            self.open_spec().contains(index),
        ensures
            self.item_ok(index, r),
    ;

}

impl<'a, T: Component> Join for &'a MaskedStorage<T> {
    type Item = &'a T;

    open spec fn wf(&self) -> bool {
        MaskedStorage::wf(**self)
    }

    open spec fn open_spec(&self) -> Set<usize> {
        (**self).contents().dom()
    }

    open spec fn item_ok(&self, index: usize, item: &'a T) -> bool {
        *item == (**self).contents()[index]
    }

    fn open(&self) -> (r: BitSet) {
        (*self).entities()
    }

    fn get(&self, index: usize) -> (r: Self::Item) {
        match MaskedStorage::get(*self, index) {
            Some(v) => v,
            None => vstd::pervasive::unreached(),
        }
    }
}

impl<A: Join, B: Join> Join for (A, B) {
    type Item = (A::Item, B::Item);

    open spec fn wf(&self) -> bool {
        self.0.wf() && self.1.wf()
    }

    open spec fn open_spec(&self) -> Set<usize> {
        self.0.open_spec().intersect(self.1.open_spec())
    }

    open spec fn item_ok(&self, index: usize, item: (A::Item, B::Item)) -> bool {
        self.0.item_ok(index, item.0) && self.1.item_ok(index, item.1)
    }

    fn open(&self) -> (r: BitSet) {
        let mut r = self.0.open();
        r.intersect_with(&self.1.open());
        r
    }

    fn get(&self, index: usize) -> (r: Self::Item) {
        (self.0.get(index), self.1.get(index))
    }
}

impl Join for () {
    type Item = ();

    open spec fn wf(&self) -> bool {
        true
    }

    open spec fn open_spec(&self) -> Set<usize> {
        Set::<usize>::empty()
    }

    open spec fn item_ok(&self, index: usize, item: ()) -> bool {
        true
    }

    fn open(&self) -> (r: BitSet) {
        BitSet::new()
    }

    fn get(&self, index: usize) -> (r: Self::Item) {
    }
}

/// A finite, non-restartable pass over a join source: the id set is
/// snapshotted at construction and yielded in ascending order with the
/// source's values; later mutation of the source is not observed.
pub struct JoinIterator<T: Join> {
    join: T,
    keys: Vec<usize>,
    pos: usize,
}

impl<T: Join> JoinIterator<T> {
    /// The joined source the iterator reads.
    pub closed spec fn join_source(self) -> T {
        self.join
    }

    /// The snapshotted ids, ascending.
    pub closed spec fn keys_seq(self) -> Seq<usize> {
        self.keys@
    }

    /// How many ids have been yielded.
    pub closed spec fn position(self) -> usize {
        self.pos
    }

    /// The source is usable, the cursor is in range, and the snapshot
    /// holds ids the source has, strictly ascending.
    pub closed spec fn wf(self) -> bool {
        &&& self.join.wf()
        &&& self.pos <= self.keys@.len()
        &&& forall|i: int|
            0 <= i < self.keys@.len() ==> self.join.open_spec().contains(
                #[trigger] self.keys@[i],
            )
        &&& forall|i: int, j: int| 0 <= i < j < self.keys@.len() ==> self.keys@[i] < self.keys@[j]
    }

    /// Snapshots the source's id set: exactly the ids the source has at
    /// this moment, in ascending order.
    pub fn new(join: T) -> (r: Self)
        requires
            join.wf(),
        ensures
            r.wf(),
            r.join_source() == join,
            r.position() == 0,
            forall|e: usize| r.keys_seq().contains(e) <==> join.open_spec().contains(e),
            forall|i: int, j: int|
                0 <= i < j < r.keys_seq().len() ==> r.keys_seq()[i] < r.keys_seq()[j],
    {
        let opened = join.open();
        let keys = opened.to_vec();
        proof {
            assert forall|i: int|
                0 <= i < keys@.len() implies join.open_spec().contains(
                #[trigger] keys@[i],
            ) by {
                assert(keys@.contains(keys@[i]));
            }
        }
        JoinIterator { join, keys, pos: 0 }
    }

    /// Yields the source's value tuple for the next snapshotted id, or
    /// nothing once the pass is over.
    pub fn next(&mut self) -> (r: Option<T::Item>)
        requires
            old(self).wf(),
        ensures
            final(self).wf(),
            final(self).join_source() == old(self).join_source(),
            final(self).keys_seq() == old(self).keys_seq(),
            forall|i: int, j: int|
                0 <= i < j < final(self).keys_seq().len() ==> final(self).keys_seq()[i]
                    < final(self).keys_seq()[j],
            old(self).position() < old(self).keys_seq().len() ==> {
                &&& final(self).position() == old(self).position() + 1
                &&& match r {
                    Option::Some(v) => old(self).join_source().item_ok(
                        old(self).keys_seq()[old(self).position() as int],
                        v,
                    ),
                    Option::None => false,
                }
            },
            old(self).position() >= old(self).keys_seq().len() ==> r is None
                && final(self).position() == old(self).position(),
    {
        if self.pos < self.keys.len() {
            let k = self.keys[self.pos];
            self.pos = self.pos + 1;
            Some(self.join.get(k))
        } else {
            None
        }
    }
}

} // verus!
