//! The type-erased resource container: values keyed by a type token and
//! a slot id, each behind a single-writer/many-reader discipline. Claims
//! are explicit: a fetch hands out a claim token, and the claim must be
//! given back for a conflicting fetch to succeed again.

use vstd::prelude::*;

verus! {

/// Identifies a resource: the type token of its value and a slot id, so
/// that several values of one type can coexist.
#[derive(Clone, Copy, PartialEq, Eq, Structural, Debug)]
pub struct ResourceId(pub u64, pub usize);

impl ResourceId {
    pub fn new(token: u64) -> (r: Self)
        ensures
            r == (ResourceId(token, 0)),
    {
        ResourceId(token, 0)
    }

    pub fn new_with_id(token: u64, id: usize) -> (r: Self)
        ensures
            r == (ResourceId(token, id)),
    {
        ResourceId(token, id)
    }
}

/// A read claim on one resource. Only the container makes these; giving
/// one back releases the claim.
pub struct Fetch {
    rid: ResourceId,
}

impl Fetch {
    /// The id this claim is on.
    pub closed spec fn claim(self) -> ResourceId {
        self.rid
    }
}

/// An exclusive write claim on one resource.
pub struct FetchMut {
    rid: ResourceId,
}

impl FetchMut {
    /// The id this claim is on.
    pub closed spec fn claim(self) -> ResourceId {
        self.rid
    }
}

struct Entry<V> {
    id: ResourceId,
    value: V,
    readers: usize,
    writing: bool,
}

/// The container: owns every resource, mediates access through claims.
pub struct Resources<V> {
    entries: Vec<Entry<V>>,
}

impl<V> Resources<V> {
    /// Whether a resource with this id is present.
    pub closed spec fn contains_spec(self, rid: ResourceId) -> bool {
        exists|i: int| 0 <= i < self.entries@.len() && (#[trigger] self.entries@[i]).id == rid
    }

    /// The entry index of a present id.
    closed spec fn at(self, rid: ResourceId) -> int {
        choose|i: int| 0 <= i < self.entries@.len() && (#[trigger] self.entries@[i]).id == rid
    }

    /// The value stored under a present id.
    pub closed spec fn value_of(self, rid: ResourceId) -> V {
        self.entries@[self.at(rid)].value
    }

    /// How many read claims are outstanding on a present id.
    pub closed spec fn readers_of(self, rid: ResourceId) -> usize {
        self.entries@[self.at(rid)].readers
    }

    /// Whether a write claim is outstanding on a present id.
    pub closed spec fn writing_of(self, rid: ResourceId) -> bool {
        self.entries@[self.at(rid)].writing
    }

    /// A read claim is available: present and no writer outstanding.
    pub open spec fn can_read(self, rid: ResourceId) -> bool {
        self.contains_spec(rid) && !self.writing_of(rid)
    }

    /// A write claim is available: present, no writer and no reader.
    pub open spec fn can_write(self, rid: ResourceId) -> bool {
        self.contains_spec(rid) && !self.writing_of(rid) && self.readers_of(rid) == 0
    }

    /// Every id appears at most once.
    closed spec fn ids_unique(self) -> bool {
        forall|i: int, j: int|
            0 <= i < j < self.entries@.len() ==> self.entries@[i].id != self.entries@[j].id
    }

    /// Ids are unique, and no entry has a writer and readers at once.
    pub closed spec fn wf(self) -> bool {
        &&& self.ids_unique()
        &&& forall|i: int|
            0 <= i < self.entries@.len() ==> !((#[trigger] self.entries@[i]).writing
                && self.entries@[i].readers > 0)
    }

    /// Everything outside one id reads the same in both containers.
    pub open spec fn same_except(self, other: Resources<V>, rid: ResourceId) -> bool {
        forall|q: ResourceId|
            q != rid ==> #[trigger] self.contains_spec(q) == other.contains_spec(q) && (
            other.contains_spec(q) ==> self.value_of(q) == other.value_of(q)
                && self.readers_of(q) == other.readers_of(q) && self.writing_of(q)
                == other.writing_of(q))
    }

    /// In a well-formed container the entry of an id is unique.
    proof fn lemma_entry_at(self, i: int)
        requires
            self.ids_unique(),
            0 <= i < self.entries@.len(),
        ensures
            self.contains_spec(self.entries@[i].id),
            self.at(self.entries@[i].id) == i,
    {
        let rid = self.entries@[i].id;
        let j = choose|j: int|
            0 <= j < self.entries@.len() && (#[trigger] self.entries@[j]).id == rid;
        if i < j {
            assert(self.entries@[i].id != self.entries@[j].id);
        } else if j < i {
            assert(self.entries@[j].id != self.entries@[i].id);
        }
    }

    /// The entry index of an id, or nothing when absent.
    fn find(&self, rid: ResourceId) -> (r: Option<usize>)
        requires
            self.wf(),
        ensures
            match r {
                Some(i) => i < self.entries@.len() && self.entries@[i as int].id == rid
                    && self.contains_spec(rid) && self.at(rid) == i,
                None => !self.contains_spec(rid),
            },
    {
        let mut i: usize = 0;
        while i < self.entries.len()
            invariant
                self.wf(),
                i <= self.entries@.len(),
                forall|j: int| 0 <= j < i ==> (#[trigger] self.entries@[j]).id != rid,
            decreases self.entries@.len() - i,
        {
            if self.entries[i].id == rid {
                proof {
                    self.lemma_entry_at(i as int);
                }
                return Some(i);
            }
            i = i + 1;
        }
        None
    }

    /// All other entries read the same after one entry was replaced.
    proof fn lemma_update_same_except(pre: Resources<V>, post: Resources<V>, i: int)
        requires
            pre.wf(),
            0 <= i < pre.entries@.len(),
            post.entries@.len() == pre.entries@.len(),
            forall|j: int| 0 <= j < pre.entries@.len() && j != i ==> post.entries@[j] == pre.entries@[j],
            post.entries@[i].id == pre.entries@[i].id,
        ensures
            post.wf() == (!(post.entries@[i].writing && post.entries@[i].readers > 0)),
            post.same_except(pre, pre.entries@[i].id),
            post.contains_spec(pre.entries@[i].id),
            post.at(pre.entries@[i].id) == i,
    {
        let rid = pre.entries@[i].id;
        assert forall|a: int, b: int|
            0 <= a < b < post.entries@.len() implies post.entries@[a].id
            != post.entries@[b].id by {
            assert(pre.entries@[a].id != pre.entries@[b].id);
        }
        post.lemma_entry_at(i);
        assert forall|q: ResourceId|
            q != rid implies #[trigger] post.contains_spec(q) == pre.contains_spec(q) && (
            pre.contains_spec(q) ==> post.value_of(q) == pre.value_of(q) && post.readers_of(q)
                == pre.readers_of(q) && post.writing_of(q) == pre.writing_of(q)) by {
            if pre.contains_spec(q) {
                let j = pre.at(q);
                pre.lemma_entry_at(j);
                assert(post.entries@[j].id == q);
                post.lemma_entry_at(j);
            }
            if post.contains_spec(q) {
                let j = post.at(q);
                post.lemma_entry_at(j);
                assert(pre.entries@[j].id == q);
                pre.lemma_entry_at(j);
            }
        }
    }

    pub fn new() -> (r: Self)
        ensures
            r.wf(),
            forall|q: ResourceId| !r.contains_spec(q),
    {
        Resources { entries: Vec::new() }
    }

    /// Stores a value under slot 0 of its token. Adding a resource that
    /// is already present is a caller error, excluded here.
    pub fn add(&mut self, token: u64, value: V)
        requires
            old(self).wf(),
            !old(self).contains_spec((ResourceId(token, 0))),
        ensures
            final(self).wf(),
            final(self).contains_spec((ResourceId(token, 0))),
            final(self).value_of((ResourceId(token, 0))) == value,
            final(self).readers_of((ResourceId(token, 0))) == 0,
            !final(self).writing_of((ResourceId(token, 0))),
            final(self).same_except(*old(self), (ResourceId(token, 0))),
    {
        self.add_with_id(token, value, 0)
    }

    /// Stores a value under a token and an explicit slot id. Adding a
    /// resource that is already present is a caller error, excluded here.
    pub fn add_with_id(&mut self, token: u64, value: V, id: usize)
        requires
            old(self).wf(),
            !old(self).contains_spec((ResourceId(token, id))),
        ensures
            final(self).wf(),
            final(self).contains_spec((ResourceId(token, id))),
            final(self).value_of((ResourceId(token, id))) == value,
            final(self).readers_of((ResourceId(token, id))) == 0,
            !final(self).writing_of((ResourceId(token, id))),
            final(self).same_except(*old(self), (ResourceId(token, id))),
    {
        let rid = ResourceId(token, id);
        self.entries.push(Entry { id: rid, value, readers: 0, writing: false });
        proof {
            let pre = *old(self);
            let n = pre.entries@.len() as int;
            assert forall|a: int, b: int|
                0 <= a < b < self.entries@.len() implies self.entries@[a].id
                != self.entries@[b].id by {
                if b < n {
                    assert(pre.entries@[a].id != pre.entries@[b].id);
                } else {
                    pre.lemma_entry_at(a);
                }
            }
            self.lemma_entry_at(n);
            assert forall|q: ResourceId|
                q != rid implies #[trigger] self.contains_spec(q) == pre.contains_spec(q) && (
                pre.contains_spec(q) ==> self.value_of(q) == pre.value_of(q) && self.readers_of(
                    q,
                ) == pre.readers_of(q) && self.writing_of(q) == pre.writing_of(q)) by {
                if pre.contains_spec(q) {
                    let j = pre.at(q);
                    pre.lemma_entry_at(j);
                    self.lemma_entry_at(j);
                }
                if self.contains_spec(q) {
                    let j = self.at(q);
                    self.lemma_entry_at(j);
                    if j < n {
                        pre.lemma_entry_at(j);
                    }
                }
            }
        }
    }

    /// Whether a resource with this id is present.
    pub fn has_value(&self, res_id: ResourceId) -> (r: bool)
        requires
            self.wf(),
        ensures
            r == self.contains_spec(res_id),
    {
        match self.find(res_id) {
            Some(_) => true,
            None => false,
        }
    }

    /// Takes a read claim when the resource is present and no write
    /// claim is outstanding; any number of read claims may coexist.
    pub fn try_fetch(&mut self, token: u64, id: usize) -> (r: Option<Fetch>)
        requires
            old(self).wf(),
            old(self).contains_spec((ResourceId(token, id))) ==> old(self).readers_of(
                (ResourceId(token, id)),
            ) < usize::MAX,
        ensures
            final(self).wf(),
            final(self).same_except(*old(self), (ResourceId(token, id))),
            match r {
                Some(f) => {
                    &&& old(self).can_read((ResourceId(token, id)))
                    &&& f.claim() == (ResourceId(token, id))
                    &&& final(self).contains_spec((ResourceId(token, id)))
                    &&& final(self).value_of((ResourceId(token, id))) == old(self).value_of(
                        (ResourceId(token, id)),
                    )
                    &&& final(self).readers_of((ResourceId(token, id))) == old(self).readers_of(
                        (ResourceId(token, id)),
                    ) + 1
                    &&& final(self).writing_of((ResourceId(token, id))) == old(self).writing_of(
                        (ResourceId(token, id)),
                    )
                },
                None => !old(self).can_read((ResourceId(token, id))) && *final(self) == *old(
                    self,
                ),
            },
    {
        let rid = ResourceId(token, id);
        match self.find(rid) {
            Some(i) => {
                if self.entries[i].writing {
                    return None;
                }
                let entry = &mut self.entries[i];
                entry.readers = entry.readers + 1;
                proof {
                    Self::lemma_update_same_except(*old(self), *self, i as int);
                }
                Some(Fetch { rid })
            },
            None => None,
        }
    }

    /// Takes a read claim. The resource must be present with no write
    /// claim outstanding; anything else is a caller error, excluded here.
    pub fn fetch(&mut self, token: u64, id: usize) -> (r: Fetch)
        requires
            old(self).wf(),
            old(self).can_read((ResourceId(token, id))),
            old(self).readers_of((ResourceId(token, id))) < usize::MAX,
        ensures
            final(self).wf(),
            final(self).same_except(*old(self), (ResourceId(token, id))),
            r.claim() == (ResourceId(token, id)),
            final(self).contains_spec((ResourceId(token, id))),
            final(self).value_of((ResourceId(token, id))) == old(self).value_of(
                (ResourceId(token, id)),
            ),
            final(self).readers_of((ResourceId(token, id))) == old(self).readers_of(
                (ResourceId(token, id)),
            ) + 1,
            final(self).writing_of((ResourceId(token, id))) == old(self).writing_of(
                (ResourceId(token, id)),
            ),
    {
        match self.try_fetch(token, id) {
            Some(f) => f,
            None => vstd::pervasive::unreached(),
        }
    }

    /// Takes the exclusive write claim when the resource is present and
    /// no claim of either kind is outstanding.
    pub fn try_fetch_mut(&mut self, token: u64, id: usize) -> (r: Option<FetchMut>)
        requires
            old(self).wf(),
        ensures
            final(self).wf(),
            final(self).same_except(*old(self), (ResourceId(token, id))),
            match r {
                Some(f) => {
                    &&& old(self).can_write((ResourceId(token, id)))
                    &&& f.claim() == (ResourceId(token, id))
                    &&& final(self).contains_spec((ResourceId(token, id)))
                    &&& final(self).value_of((ResourceId(token, id))) == old(self).value_of(
                        (ResourceId(token, id)),
                    )
                    &&& final(self).readers_of((ResourceId(token, id))) == old(self).readers_of(
                        (ResourceId(token, id)),
                    )
                    &&& final(self).writing_of((ResourceId(token, id)))
                },
                None => !old(self).can_write((ResourceId(token, id))) && *final(self) == *old(
                    self,
                ),
            },
    {
        let rid = ResourceId(token, id);
        match self.find(rid) {
            Some(i) => {
                if self.entries[i].writing {
                    return None;
                }
                if self.entries[i].readers > 0 {
                    return None;
                }
                let entry = &mut self.entries[i];
                entry.writing = true;
                proof {
                    Self::lemma_update_same_except(*old(self), *self, i as int);
                }
                Some(FetchMut { rid })
            },
            None => None,
        }
    }

    /// Takes the exclusive write claim. The resource must be present
    /// with no claim outstanding; anything else is a caller error,
    /// excluded here.
    pub fn fetch_mut(&mut self, token: u64, id: usize) -> (r: FetchMut)
        requires
            old(self).wf(),
            old(self).can_write((ResourceId(token, id))),
        ensures
            final(self).wf(),
            final(self).same_except(*old(self), (ResourceId(token, id))),
            r.claim() == (ResourceId(token, id)),
            final(self).contains_spec((ResourceId(token, id))),
            final(self).value_of((ResourceId(token, id))) == old(self).value_of(
                (ResourceId(token, id)),
            ),
            final(self).readers_of((ResourceId(token, id))) == old(self).readers_of(
                (ResourceId(token, id)),
            ),
            final(self).writing_of((ResourceId(token, id))),
    {
        match self.try_fetch_mut(token, id) {
            Some(f) => f,
            None => vstd::pervasive::unreached(),
        }
    }

    /// Reads the value a read claim is on.
    pub fn read(&self, f: &Fetch) -> (r: &V)
        requires
            self.wf(),
            self.contains_spec(f.claim()),
        ensures
            *r == self.value_of(f.claim()),
    {
        match self.find(f.rid) {
            Some(i) => &self.entries[i].value,
            None => vstd::pervasive::unreached(),
        }
    }

    /// Reads the value a write claim is on.
    pub fn read_mut(&self, f: &FetchMut) -> (r: &V)
        requires
            self.wf(),
            self.contains_spec(f.claim()),
        ensures
            *r == self.value_of(f.claim()),
    {
        match self.find(f.rid) {
            Some(i) => &self.entries[i].value,
            None => vstd::pervasive::unreached(),
        }
    }

    /// Replaces the value a write claim is on, yielding the old value.
    pub fn replace(&mut self, f: &FetchMut, value: V) -> (r: V)
        requires
            old(self).wf(),
            old(self).contains_spec(f.claim()),
        ensures
            r == old(self).value_of(f.claim()),
            final(self).wf(),
            final(self).same_except(*old(self), f.claim()),
            final(self).contains_spec(f.claim()),
            final(self).value_of(f.claim()) == value,
            final(self).readers_of(f.claim()) == old(self).readers_of(f.claim()),
            final(self).writing_of(f.claim()) == old(self).writing_of(f.claim()),
    {
        let i = match self.find(f.rid) {
            Some(i) => i,
            None => vstd::pervasive::unreached(),
        };
        let mut v = value;
        let entry = &mut self.entries[i];
        std::mem::swap(&mut entry.value, &mut v);
        proof {
            Self::lemma_update_same_except(*old(self), *self, i as int);
        }
        v
    }

    /// What holds after read claims were taken on two resources at once:
    /// both were readable, both reader counts rose by one (by two when
    /// the two ids are the same), and nothing else changed.
    pub open spec fn pair_read_taken(
        pre: Resources<V>,
        post: Resources<V>,
        a: ResourceId,
        b: ResourceId,
    ) -> bool {
        &&& pre.can_read(a) && pre.can_read(b)
        &&& post.contains_spec(a) && post.contains_spec(b)
        &&& post.value_of(a) == pre.value_of(a)
        &&& post.value_of(b) == pre.value_of(b)
        &&& post.writing_of(a) == pre.writing_of(a)
        &&& post.writing_of(b) == pre.writing_of(b)
        &&& a == b ==> post.readers_of(a) == pre.readers_of(a) + 2
        &&& a != b ==> post.readers_of(a) == pre.readers_of(a) + 1 && post.readers_of(b)
            == pre.readers_of(b) + 1
        &&& forall|q: ResourceId|
            q != a && q != b ==> #[trigger] post.contains_spec(q) == pre.contains_spec(q) && (
            pre.contains_spec(q) ==> post.value_of(q) == pre.value_of(q) && post.readers_of(q)
                == pre.readers_of(q) && post.writing_of(q) == pre.writing_of(q))
    }

    /// Both containers read the same everywhere.
    pub open spec fn reads_same(pre: Resources<V>, post: Resources<V>) -> bool {
        forall|q: ResourceId|
            #[trigger] post.contains_spec(q) == pre.contains_spec(q) && (pre.contains_spec(q)
                ==> post.value_of(q) == pre.value_of(q) && post.readers_of(q)
                == pre.readers_of(q) && post.writing_of(q) == pre.writing_of(q))
    }

    /// Taking a read claim and giving it back leaves every resource
    /// reading as before.
    proof fn lemma_rollback(pre: Resources<V>, mid: Resources<V>, post: Resources<V>, rid: ResourceId)
        requires
            mid.same_except(pre, rid),
            post.same_except(mid, rid),
            pre.contains_spec(rid),
            mid.contains_spec(rid),
            post.contains_spec(rid),
            post.value_of(rid) == mid.value_of(rid),
            mid.value_of(rid) == pre.value_of(rid),
            post.readers_of(rid) == mid.readers_of(rid) - 1,
            mid.readers_of(rid) == pre.readers_of(rid) + 1,
            post.writing_of(rid) == mid.writing_of(rid),
            mid.writing_of(rid) == pre.writing_of(rid),
        ensures
            Self::reads_same(pre, post),
    {
        assert forall|q: ResourceId|
            #[trigger] post.contains_spec(q) == pre.contains_spec(q) && (pre.contains_spec(q)
                ==> post.value_of(q) == pre.value_of(q) && post.readers_of(q)
                == pre.readers_of(q) && post.writing_of(q) == pre.writing_of(q)) by {
            if q != rid {
                assert(mid.contains_spec(q) == pre.contains_spec(q));
                assert(post.contains_spec(q) == mid.contains_spec(q));
                if pre.contains_spec(q) {
                    assert(mid.value_of(q) == pre.value_of(q));
                    assert(post.value_of(q) == mid.value_of(q));
                    assert(mid.readers_of(q) == pre.readers_of(q));
                    assert(post.readers_of(q) == mid.readers_of(q));
                    assert(mid.writing_of(q) == pre.writing_of(q));
                    assert(post.writing_of(q) == mid.writing_of(q));
                }
            }
        }
    }

    /// Takes read claims on two resources together, in declaration
    /// order. When the second claim cannot be taken, the claim already
    /// taken on the first is rolled back: either both claims are taken,
    /// or the container is left exactly as it was.
    #[verifier::rlimit(60)]
    pub fn try_fetch_pair(&mut self, a: ResourceId, b: ResourceId) -> (r: Option<(Fetch, Fetch)>)
        requires
            old(self).wf(),
            old(self).contains_spec(a) ==> old(self).readers_of(a) < usize::MAX - 1,
            old(self).contains_spec(b) ==> old(self).readers_of(b) < usize::MAX - 1,
        ensures
            final(self).wf(),
            r is Some ==> r.unwrap().0.claim() == a && r.unwrap().1.claim() == b
                && Self::pair_read_taken(*old(self), *final(self), a, b),
            r is None ==> !(old(self).can_read(a) && old(self).can_read(b))
                && Self::reads_same(*old(self), *final(self)),
    {
        let first = match self.try_fetch(a.0, a.1) {
            Some(f) => f,
            None => {
                proof {
                    assert(Self::reads_same(*old(self), *self));
                }
                return None;
            },
        };
        let ghost mid = *self;
        proof {
            if self.contains_spec(b) && b != a {
                assert(old(self).contains_spec(b));
            }
        }
        match self.try_fetch(b.0, b.1) {
            Some(second) => {
                proof {
                    if a != b {
                        assert(mid.contains_spec(a));
                        assert(self.contains_spec(a));
                        assert(self.value_of(a) == mid.value_of(a));
                        assert(self.readers_of(a) == mid.readers_of(a));
                        assert(self.writing_of(a) == mid.writing_of(a));
                        assert(mid.contains_spec(b) ==> mid.readers_of(b) == old(self).readers_of(
                            b,
                        ));
                        assert(old(self).can_read(b));
                    }
                    assert forall|q: ResourceId|
                        q != a && q != b implies #[trigger] self.contains_spec(q)
                        == old(self).contains_spec(q) && (old(self).contains_spec(q)
                        ==> self.value_of(q) == old(self).value_of(q) && self.readers_of(q)
                        == old(self).readers_of(q) && self.writing_of(q)
                        == old(self).writing_of(q)) by {
                        assert(mid.contains_spec(q) == old(self).contains_spec(q));
                        assert(self.contains_spec(q) == mid.contains_spec(q));
                        if old(self).contains_spec(q) {
                            assert(mid.value_of(q) == old(self).value_of(q));
                            assert(self.value_of(q) == mid.value_of(q));
                            assert(mid.readers_of(q) == old(self).readers_of(q));
                            assert(self.readers_of(q) == mid.readers_of(q));
                            assert(mid.writing_of(q) == old(self).writing_of(q));
                            assert(self.writing_of(q) == mid.writing_of(q));
                        }
                    }
                    assert(Self::pair_read_taken(*old(self), *self, a, b));
                }
                Some((first, second))
            },
            None => {
                proof {
                    if b == a {
                        assert(mid.contains_spec(b));
                        assert(!mid.writing_of(b));
                        assert(mid.can_read(b));
                        assert(false);
                    }
                    assert(mid.can_read(b) == old(self).can_read(b));
                    assert(!old(self).can_read(b));
                }
                self.release(first);
                proof {
                    Self::lemma_rollback(*old(self), mid, *self, a);
                }
                None
            },
        }
    }

    /// What holds after a read claim on one resource and the write claim
    /// on another were taken at once: the two ids differ, both were
    /// available, the reader count of the first rose by one, the second
    /// carries the writer mark, and nothing else changed.
    pub open spec fn read_write_taken(
        pre: Resources<V>,
        post: Resources<V>,
        a: ResourceId,
        b: ResourceId,
    ) -> bool {
        &&& a != b
        &&& pre.can_read(a) && pre.can_write(b)
        &&& post.contains_spec(a) && post.contains_spec(b)
        &&& post.value_of(a) == pre.value_of(a)
        &&& post.value_of(b) == pre.value_of(b)
        &&& post.readers_of(a) == pre.readers_of(a) + 1
        &&& post.readers_of(b) == pre.readers_of(b)
        &&& post.writing_of(a) == pre.writing_of(a)
        &&& post.writing_of(b)
        &&& forall|q: ResourceId|
            q != a && q != b ==> #[trigger] post.contains_spec(q) == pre.contains_spec(q) && (
            pre.contains_spec(q) ==> post.value_of(q) == pre.value_of(q) && post.readers_of(q)
                == pre.readers_of(q) && post.writing_of(q) == pre.writing_of(q))
    }

    /// Takes a read claim on one resource and the write claim on
    /// another together, in declaration order. When the write claim
    /// cannot be taken, the read claim already taken is rolled back:
    /// either both claims are taken, or the container is left exactly
    /// as it was. Asking for both claims on one id always rolls back,
    /// since the read claim blocks the write claim.
    #[verifier::rlimit(60)]
    pub fn try_fetch_read_write(&mut self, a: ResourceId, b: ResourceId) -> (r: Option<
        (Fetch, FetchMut),
    >)
        requires
            old(self).wf(),
            old(self).contains_spec(a) ==> old(self).readers_of(a) < usize::MAX,
        ensures
            final(self).wf(),
            r is Some ==> r.unwrap().0.claim() == a && r.unwrap().1.claim() == b
                && Self::read_write_taken(*old(self), *final(self), a, b),
            r is None ==> !(a != b && old(self).can_read(a) && old(self).can_write(b))
                && Self::reads_same(*old(self), *final(self)),
    {
        let first = match self.try_fetch(a.0, a.1) {
            Some(f) => f,
            None => {
                proof {
                    assert(Self::reads_same(*old(self), *self));
                }
                return None;
            },
        };
        let ghost mid = *self;
        match self.try_fetch_mut(b.0, b.1) {
            Some(second) => {
                proof {
                    if a == b {
                        assert(mid.readers_of(b) > 0);
                        assert(!mid.can_write(b));
                        assert(false);
                    }
                    assert(mid.contains_spec(a));
                    assert(self.contains_spec(a));
                    assert(self.value_of(a) == mid.value_of(a));
                    assert(self.readers_of(a) == mid.readers_of(a));
                    assert(self.writing_of(a) == mid.writing_of(a));
                    assert(mid.contains_spec(b) ==> mid.readers_of(b) == old(self).readers_of(b)
                        && mid.writing_of(b) == old(self).writing_of(b));
                    assert(old(self).can_write(b));
                    assert forall|q: ResourceId|
                        q != a && q != b implies #[trigger] self.contains_spec(q)
                        == old(self).contains_spec(q) && (old(self).contains_spec(q)
                        ==> self.value_of(q) == old(self).value_of(q) && self.readers_of(q)
                        == old(self).readers_of(q) && self.writing_of(q)
                        == old(self).writing_of(q)) by {
                        assert(mid.contains_spec(q) == old(self).contains_spec(q));
                        assert(self.contains_spec(q) == mid.contains_spec(q));
                        if old(self).contains_spec(q) {
                            assert(mid.value_of(q) == old(self).value_of(q));
                            assert(self.value_of(q) == mid.value_of(q));
                            assert(mid.readers_of(q) == old(self).readers_of(q));
                            assert(self.readers_of(q) == mid.readers_of(q));
                            assert(mid.writing_of(q) == old(self).writing_of(q));
                            assert(self.writing_of(q) == mid.writing_of(q));
                        }
                    }
                    assert(Self::read_write_taken(*old(self), *self, a, b));
                }
                Some((first, second))
            },
            None => {
                proof {
                    if a != b && old(self).can_write(b) {
                        assert(mid.contains_spec(b));
                        assert(mid.readers_of(b) == old(self).readers_of(b));
                        assert(mid.writing_of(b) == old(self).writing_of(b));
                        assert(mid.can_write(b));
                        assert(false);
                    }
                }
                self.release(first);
                proof {
                    Self::lemma_rollback(*old(self), mid, *self, a);
                }
                None
            },
        }
    }

    /// Gives a read claim back.
    pub fn release(&mut self, f: Fetch)
        requires
            old(self).wf(),
            old(self).contains_spec(f.claim()),
            old(self).readers_of(f.claim()) > 0,
        ensures
            final(self).wf(),
            final(self).same_except(*old(self), f.claim()),
            final(self).contains_spec(f.claim()),
            final(self).value_of(f.claim()) == old(self).value_of(f.claim()),
            final(self).readers_of(f.claim()) == old(self).readers_of(f.claim()) - 1,
            final(self).writing_of(f.claim()) == old(self).writing_of(f.claim()),
    {
        let i = match self.find(f.rid) {
            Some(i) => i,
            None => vstd::pervasive::unreached(),
        };
        let entry = &mut self.entries[i];
        entry.readers = entry.readers - 1;
        proof {
            Self::lemma_update_same_except(*old(self), *self, i as int);
        }
    }

    /// Gives the write claim back.
    pub fn release_mut(&mut self, f: FetchMut)
        requires
            old(self).wf(),
            old(self).contains_spec(f.claim()),
        ensures
            final(self).wf(),
            final(self).same_except(*old(self), f.claim()),
            final(self).contains_spec(f.claim()),
            final(self).value_of(f.claim()) == old(self).value_of(f.claim()),
            final(self).readers_of(f.claim()) == old(self).readers_of(f.claim()),
            !final(self).writing_of(f.claim()),
    {
        let i = match self.find(f.rid) {
            Some(i) => i,
            None => vstd::pervasive::unreached(),
        };
        let entry = &mut self.entries[i];
        entry.writing = false;
        proof {
            Self::lemma_update_same_except(*old(self), *self, i as int);
        }
    }
}

/// While any read claim on a resource is outstanding, the write claim is
/// unavailable.
pub proof fn lemma_reader_blocks_writer<V>(r: Resources<V>, rid: ResourceId)
    requires
        r.wf(),
        r.contains_spec(rid),
        r.readers_of(rid) > 0,
    ensures
        !r.can_write(rid),
{
}

/// Once the last read claim on a resource is given back, the write claim
/// becomes available.
pub proof fn lemma_release_enables_write<V>(r0: Resources<V>, r1: Resources<V>, rid: ResourceId)
    requires
        r0.wf(),
        r0.contains_spec(rid),
        r0.readers_of(rid) == 1,
        !r0.writing_of(rid),
        r1.contains_spec(rid),
        r1.readers_of(rid) == r0.readers_of(rid) - 1,
        r1.writing_of(rid) == r0.writing_of(rid),
    ensures
        r1.can_write(rid),
{
}

} // verus!
