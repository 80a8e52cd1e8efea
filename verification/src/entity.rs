//! Entity identity and lifecycle: identifiers are allocated from a counter,
//! recycled through a first-in-first-out reuse pool, and tracked for
//! liveness in a bitset.

use vstd::prelude::*;

use crate::aspect::Matcher;
use crate::bits::bits_of;
use crate::bits::BitSet;
use crate::component::ComponentId;
use crate::component::ComponentManager;

verus! {

/// An opaque, reusable entity identifier.
pub type Entity = usize;

/// Allocates and recycles entity identifiers and tracks which are alive.
pub struct EntityStorage {
    next_id: usize,
    alive: BitSet,
    limbo: Vec<Entity>,
}

impl EntityStorage {
    /// The identifiers currently alive.
    pub closed spec fn alive_ids(self) -> Set<usize> {
        bits_of(self.alive)
    }

    /// The identifiers waiting to be reused, oldest first.
    pub closed spec fn limbo_ids(self) -> Seq<usize> {
        self.limbo@
    }

    /// The next never-used identifier.
    pub closed spec fn counter(self) -> usize {
        self.next_id
    }

    /// Alive and pending identifiers all lie below the counter, no
    /// identifier is both alive and pending, and none is pending twice.
    pub closed spec fn wf(self) -> bool {
        &&& forall|e: usize| self.alive_ids().contains(e) ==> e < self.next_id
        &&& forall|i: int|
            0 <= i < self.limbo@.len() ==> (#[trigger] self.limbo@[i]) < self.next_id
        &&& forall|i: int|
            0 <= i < self.limbo@.len() ==> !self.alive_ids().contains(#[trigger] self.limbo@[i])
        &&& forall|i: int, j: int|
            0 <= i < j < self.limbo@.len() ==> self.limbo@[i] != self.limbo@[j]
    }

    pub fn new() -> (r: Self)
        ensures
            r.wf(),
            r.alive_ids() == Set::<usize>::empty(),
            r.limbo_ids() == Seq::<usize>::empty(),
            r.counter() == 0,
    {
        EntityStorage { next_id: 0, alive: BitSet::new(), limbo: Vec::new() }
    }

    /// Returns the oldest pending identifier if any is waiting for reuse,
    /// else the fresh counter value; the result is marked alive. The result
    /// was not alive before the call.
    pub fn create(&mut self) -> (r: Entity)
        requires
            old(self).wf(),
            old(self).limbo_ids().len() == 0 ==> old(self).counter() < usize::MAX,
        ensures
            final(self).wf(),
            !old(self).alive_ids().contains(r),
            final(self).alive_ids() == old(self).alive_ids().insert(r),
            old(self).limbo_ids().len() > 0 ==> r == old(self).limbo_ids()[0]
                && final(self).limbo_ids() == old(self).limbo_ids().drop_first()
                && final(self).counter() == old(self).counter(),
            old(self).limbo_ids().len() == 0 ==> r == old(self).counter()
                && final(self).limbo_ids() == old(self).limbo_ids()
                && final(self).counter() == old(self).counter() + 1,
    {
        let id: usize = if !self.limbo.is_empty() {
            self.limbo.remove(0)
        } else {
            let id = self.next_id;
            self.next_id = id + 1;
            id
        };
        self.alive.insert(id);
        proof {
            let pre = *old(self);
            let post = *self;
            if pre.limbo@.len() > 0 {
                assert(post.limbo@ =~= pre.limbo@.drop_first());
            }
            assert forall|e: usize| post.alive_ids().contains(e) implies e < post.next_id by {
                if e != id {
                    assert(pre.alive_ids().contains(e));
                }
            }
            assert forall|i: int|
                0 <= i < post.limbo@.len() implies (#[trigger] post.limbo@[i])
                < post.next_id by {
                if pre.limbo@.len() > 0 {
                    assert(post.limbo@[i] == pre.limbo@[i + 1]);
                }
            }
            assert forall|i: int|
                0 <= i < post.limbo@.len() implies !post.alive_ids().contains(
                #[trigger] post.limbo@[i],
            ) by {
                if pre.limbo@.len() > 0 {
                    assert(post.limbo@[i] == pre.limbo@[i + 1]);
                    assert(pre.limbo@[i + 1] != pre.limbo@[0]);
                    assert(!pre.alive_ids().contains(pre.limbo@[i + 1]));
                } else {
                    assert(post.limbo@[i] < pre.next_id);
                    assert(!pre.alive_ids().contains(post.limbo@[i]));
                }
            }
            assert forall|i: int, j: int|
                0 <= i < j < post.limbo@.len() implies post.limbo@[i] != post.limbo@[j] by {
                if pre.limbo@.len() > 0 {
                    assert(post.limbo@[i] == pre.limbo@[i + 1]);
                    assert(post.limbo@[j] == pre.limbo@[j + 1]);
                }
            }
        }
        id
    }

    pub fn is_alive(&self, entity: Entity) -> (r: bool)
        ensures
            r == self.alive_ids().contains(entity),
    {
        self.alive.contains(entity)
    }

    /// Marks an alive identifier dead and queues it for reuse. Destroying
    /// an identifier that is not alive is a caller error, excluded here.
    pub fn destroy(&mut self, entity: Entity)
        requires
            old(self).wf(),
            old(self).alive_ids().contains(entity),
        ensures
            final(self).wf(),
            final(self).alive_ids() == old(self).alive_ids().remove(entity),
            final(self).limbo_ids() == old(self).limbo_ids().push(entity),
            final(self).counter() == old(self).counter(),
    {
        self.limbo.push(entity);
        self.alive.remove(entity);
    }
}

/// Identifiers returned by two creations are distinct while the first is
/// still alive: a creation returns an identifier that was not alive and
/// makes exactly it alive.
pub proof fn lemma_create_ids_distinct(
    alive0: Set<usize>,
    e1: usize,
    alive1: Set<usize>,
    e2: usize,
)
    requires
        !alive0.contains(e1),
        alive1 == alive0.insert(e1),
        !alive1.contains(e2),
    ensures
        e1 != e2,
{
}

/// A destroyed identifier is not alive afterwards, and when the reuse pool
/// was empty before the destruction, the next creation returns exactly the
/// destroyed identifier.
pub proof fn lemma_destroy_then_create_reuses(s0: EntityStorage, s1: EntityStorage, e: usize)
    requires
        s0.wf(),
        s0.alive_ids().contains(e),
        s0.limbo_ids().len() == 0,
        s1.alive_ids() == s0.alive_ids().remove(e),
        s1.limbo_ids() == s0.limbo_ids().push(e),
    ensures
        !s1.alive_ids().contains(e),
        s1.limbo_ids().len() > 0,
        s1.limbo_ids()[0] == e,
{
}

/// Per-entity presence bits: which component ids each entity currently
/// has, stored densely by entity id.
pub struct EntityStates {
    state: Vec<BitSet>,
}

impl EntityStates {
    /// The component ids the entity currently has; empty when the entity
    /// was never touched.
    pub closed spec fn state_of(self, entity: usize) -> Set<usize> {
        if entity < self.state@.len() {
            bits_of(self.state@[entity as int])
        } else {
            Set::<usize>::empty()
        }
    }

    pub fn new() -> (r: Self)
        ensures
            forall|e: usize| r.state_of(e) == Set::<usize>::empty(),
    {
        EntityStates { state: Vec::new() }
    }

    /// Makes the dense table reach the entity, new slots empty.
    fn grow(&mut self, entity: usize)
        requires
            entity < usize::MAX,
        ensures
            final(self).state@.len() > entity,
            forall|e: usize| final(self).state_of(e) == old(self).state_of(e),
            forall|j: int|
                0 <= j < old(self).state@.len() ==> final(self).state@[j] == old(self).state@[j],
    {
        while self.state.len() <= entity
            invariant
                forall|j: int|
                    0 <= j < old(self).state@.len() ==> self.state@[j] == old(self).state@[j],
                forall|j: int|
                    old(self).state@.len() <= j < self.state@.len() ==> bits_of(self.state@[j])
                        == Set::<usize>::empty(),
                self.state@.len() >= old(self).state@.len(),
            decreases entity - self.state@.len() + 1,
        {
            self.state.push(BitSet::new());
        }
        proof {
            assert forall|e: usize| self.state_of(e) == old(self).state_of(e) by {}
        }
    }

    /// The entity's bits, emptied first when `reset` is set or the entity
    /// is new; later changes through the result are the entity's state.
    pub fn get(&mut self, entity: usize, reset: bool) -> (r: &mut BitSet)
        requires
            entity < usize::MAX,
        ensures
            bits_of(*r) == (if reset {
                Set::<usize>::empty()
            } else {
                old(self).state_of(entity)
            }),
            forall|e: usize| e != entity ==> final(self).state_of(e) == old(self).state_of(e),
            final(self).state_of(entity) == bits_of(*final(r)),
    {
        self.grow(entity);
        if reset {
            let slot = &mut self.state[entity];
            *slot = BitSet::new();
        }
        &mut self.state[entity]
    }

    /// Marks one component id present for the entity.
    pub fn set_bit(&mut self, entity: usize, component: ComponentId)
        requires
            entity < usize::MAX,
        ensures
            final(self).state_of(entity) == old(self).state_of(entity).insert(component),
            forall|e: usize| e != entity ==> final(self).state_of(e) == old(self).state_of(e),
    {
        self.grow(entity);
        let slot = &mut self.state[entity];
        slot.insert(component);
    }

    /// Marks one component id absent for the entity.
    pub fn clear_bit(&mut self, entity: usize, component: ComponentId)
        requires
            entity < usize::MAX,
        ensures
            final(self).state_of(entity) == old(self).state_of(entity).remove(component),
            forall|e: usize| e != entity ==> final(self).state_of(e) == old(self).state_of(e),
    {
        self.grow(entity);
        let slot = &mut self.state[entity];
        slot.remove(component);
    }

    /// Forgets every component id of the entity.
    pub fn reset(&mut self, entity: usize)
        requires
            entity < usize::MAX,
        ensures
            final(self).state_of(entity) == Set::<usize>::empty(),
            forall|e: usize| e != entity ==> final(self).state_of(e) == old(self).state_of(e),
    {
        self.grow(entity);
        let slot = &mut self.state[entity];
        *slot = BitSet::new();
    }

    pub fn contains_bit(&self, entity: usize, component: ComponentId) -> (r: bool)
        ensures
            r == self.state_of(entity).contains(component),
    {
        if entity < self.state.len() {
            self.state[entity].contains(component)
        } else {
            false
        }
    }

    /// A copy of the entity's bits.
    pub fn snapshot(&self, entity: usize) -> (r: BitSet)
        ensures
            bits_of(r) == self.state_of(entity),
    {
        if entity < self.state.len() {
            self.state[entity].clone()
        } else {
            BitSet::new()
        }
    }
}

/// Maps each registered matcher to the set of entities satisfying it,
/// maintained incrementally after every per-entity bitset change.
pub struct AspectIndex {
    matchers: Vec<Matcher>,
    members: Vec<BitSet>,
}

impl AspectIndex {
    /// How many matchers are registered.
    pub closed spec fn entry_count(self) -> nat {
        self.matchers@.len()
    }

    /// The matcher of one index entry.
    pub closed spec fn matcher_at(self, k: int) -> Matcher {
        self.matchers@[k]
    }

    /// The member set of one index entry.
    pub closed spec fn members_at(self, k: int) -> Set<usize> {
        bits_of(self.members@[k])
    }

    /// Whether a matcher with this key is registered.
    pub open spec fn registered(self, m: Matcher) -> bool {
        exists|k: int|
            0 <= k < self.entry_count() && (#[trigger] self.matcher_at(k)).same_key(m)
    }

    /// The entry index of a registered matcher key.
    pub closed spec fn index_of(self, m: Matcher) -> int {
        choose|k: int|
            0 <= k < self.entry_count() && (#[trigger] self.matcher_at(k)).same_key(m)
    }

    /// The member set of a registered matcher key.
    pub open spec fn members_of(self, m: Matcher) -> Set<usize> {
        self.members_at(self.index_of(m))
    }

    /// One member set per matcher, and matcher keys pairwise distinct.
    pub closed spec fn wf(self) -> bool {
        &&& self.matchers@.len() == self.members@.len()
        &&& forall|i: int, j: int|
            0 <= i < j < self.matchers@.len() ==> !(#[trigger] self.matchers@[i]).same_key(
                #[trigger] self.matchers@[j],
            )
    }

    /// In a well-formed index the entry of a key is unique, so any entry
    /// whose matcher has the key is the entry the key denotes: what a
    /// query for the key returns is that entry's member set.
    pub proof fn lemma_entry_at(self, k: int, m: Matcher)
        requires
            self.wf(),
            0 <= k < self.entry_count(),
            self.matcher_at(k).same_key(m),
        ensures
            self.registered(m),
            self.index_of(m) == k,
            self.members_of(m) == self.members_at(k),
    {
        let j = choose|j: int|
            0 <= j < self.entry_count() && (#[trigger] self.matcher_at(j)).same_key(m);
        if j < k {
            assert(self.matchers@[j].same_key(self.matchers@[k]));
        } else if k < j {
            assert(self.matchers@[k].same_key(self.matchers@[j]));
        }
    }

    /// Matchers with the same key are interchangeable as index queries.
    pub proof fn lemma_registered_same_key(self, a: Matcher, b: Matcher)
        requires
            self.wf(),
            a.same_key(b),
        ensures
            self.registered(a) == self.registered(b),
            self.registered(a) ==> self.members_of(a) == self.members_of(b),
    {
        if self.registered(a) {
            let k = self.index_of(a);
            assert(self.matcher_at(k).same_key(b));
            self.lemma_entry_at(k, b);
        }
        if self.registered(b) {
            let k = self.index_of(b);
            assert(self.matcher_at(k).same_key(a));
            self.lemma_entry_at(k, a);
        }
    }

    pub fn new() -> (r: Self)
        ensures
            r.wf(),
            r.entry_count() == 0,
            forall|m: Matcher| !r.registered(m),
    {
        AspectIndex { matchers: Vec::new(), members: Vec::new() }
    }

    /// Registers a matcher key with an empty member set; registering a
    /// key twice silently leaves the index unchanged.
    pub fn register(&mut self, matcher: &Matcher)
        requires
            old(self).wf(),
        ensures
            final(self).wf(),
            final(self).registered(*matcher),
            forall|m: Matcher|
                old(self).registered(m) ==> final(self).registered(m) && final(self).members_of(
                    m,
                ) == old(self).members_of(m),
            old(self).registered(*matcher) ==> *final(self) == *old(self),
            !old(self).registered(*matcher) ==> {
                &&& final(self).entry_count() == old(self).entry_count() + 1
                &&& forall|k: int|
                    0 <= k < old(self).entry_count() ==> final(self).matcher_at(k) == old(
                        self,
                    ).matcher_at(k) && final(self).members_at(k) == old(self).members_at(k)
                &&& final(self).matcher_at(old(self).entry_count() as int).same_key(*matcher)
                &&& final(self).members_of(*matcher) == Set::<usize>::empty()
            },
    {
        let n = self.matchers.len();
        let mut k: usize = 0;
        while k < n
            invariant
                n == self.matchers@.len(),
                k <= n,
                self.wf(),
                forall|j: int| 0 <= j < k ==> !(#[trigger] self.matchers@[j]).same_key(*matcher),
            decreases n - k,
        {
            if self.matchers[k].same_as(matcher) {
                proof {
                    self.lemma_entry_at(k as int, *matcher);
                }
                return ;
            }
            k = k + 1;
        }
        self.matchers.push(matcher.clone());
        self.members.push(BitSet::new());
        proof {
            let pre = *old(self);
            let n_old = pre.matchers@.len() as int;
            assert(self.matcher_at(n_old).same_key(*matcher));
            self.lemma_entry_at(n_old, *matcher);
            assert forall|m: Matcher| pre.registered(m) implies self.registered(m)
                && self.members_of(m) == pre.members_of(m) by {
                let k = pre.index_of(m);
                pre.lemma_entry_at(k, m);
                assert(self.matcher_at(k).same_key(m));
                self.lemma_entry_at(k, m);
            }
        }
    }

    /// Re-evaluates every registered matcher against an entity's new
    /// presence bits: the entity joins each member set whose matcher it
    /// now satisfies and leaves each whose matcher it does not.
    pub fn update(&mut self, entity: usize, bits: &BitSet)
        requires
            old(self).wf(),
        ensures
            final(self).wf(),
            final(self).entry_count() == old(self).entry_count(),
            forall|k: int|
                0 <= k < old(self).entry_count() ==> final(self).matcher_at(k) == old(
                    self,
                ).matcher_at(k),
            forall|k: int|
                0 <= k < old(self).entry_count() ==> final(self).members_at(k) == (if old(
                    self,
                ).matcher_at(k).matches(bits_of(*bits)) {
                    old(self).members_at(k).insert(entity)
                } else {
                    old(self).members_at(k).remove(entity)
                }),
            forall|m: Matcher| final(self).registered(m) == old(self).registered(m),
            forall|m: Matcher|
                old(self).registered(m) ==> final(self).members_of(m) == (if m.matches(
                    bits_of(*bits),
                ) {
                    old(self).members_of(m).insert(entity)
                } else {
                    old(self).members_of(m).remove(entity)
                }),
    {
        let n = self.matchers.len();
        let mut k: usize = 0;
        while k < n
            invariant
                n == self.matchers@.len(),
                n == self.members@.len(),
                k <= n,
                self.matchers@ == old(self).matchers@,
                self.members@.len() == old(self).members@.len(),
                forall|j: int|
                    k <= j < self.members@.len() ==> self.members@[j] == old(self).members@[j],
                forall|j: int|
                    0 <= j < k ==> bits_of(self.members@[j]) == (if old(self).matchers@[j].matches(
                        bits_of(*bits),
                    ) {
                        bits_of(old(self).members@[j]).insert(entity)
                    } else {
                        bits_of(old(self).members@[j]).remove(entity)
                    }),
            decreases n - k,
        {
            let hit = self.matchers[k].check(bits);
            if hit {
                let slot = &mut self.members[k];
                slot.insert(entity);
            } else {
                let slot = &mut self.members[k];
                slot.remove(entity);
            }
            k = k + 1;
        }
        proof {
            let pre = *old(self);
            assert forall|m: Matcher| self.registered(m) == pre.registered(m) by {
                if pre.registered(m) {
                    let j = pre.index_of(m);
                    assert(self.matcher_at(j).same_key(m));
                }
                if self.registered(m) {
                    let j = self.index_of(m);
                    assert(pre.matcher_at(j).same_key(m));
                }
            }
            assert forall|m: Matcher| pre.registered(m) implies self.members_of(m) == (if m.matches(
                bits_of(*bits),
            ) {
                pre.members_of(m).insert(entity)
            } else {
                pre.members_of(m).remove(entity)
            }) by {
                let j = pre.index_of(m);
                pre.lemma_entry_at(j, m);
                self.lemma_entry_at(j, m);
                assert(pre.matcher_at(j).matches(bits_of(*bits)) == m.matches(bits_of(*bits)));
            }
        }
    }

    /// Removes the entity from every member set, used on destruction.
    pub fn remove(&mut self, entity: usize)
        requires
            old(self).wf(),
        ensures
            final(self).wf(),
            final(self).entry_count() == old(self).entry_count(),
            forall|k: int|
                0 <= k < old(self).entry_count() ==> final(self).matcher_at(k) == old(
                    self,
                ).matcher_at(k),
            forall|k: int|
                0 <= k < old(self).entry_count() ==> final(self).members_at(k) == old(
                    self,
                ).members_at(k).remove(entity),
            forall|m: Matcher| final(self).registered(m) == old(self).registered(m),
            forall|m: Matcher|
                old(self).registered(m) ==> final(self).members_of(m) == old(self).members_of(
                    m,
                ).remove(entity),
    {
        let n = self.members.len();
        let mut k: usize = 0;
        while k < n
            invariant
                n == self.members@.len(),
                k <= n,
                self.matchers@ == old(self).matchers@,
                self.members@.len() == old(self).members@.len(),
                forall|j: int|
                    k <= j < self.members@.len() ==> self.members@[j] == old(self).members@[j],
                forall|j: int|
                    0 <= j < k ==> bits_of(self.members@[j]) == bits_of(
                        old(self).members@[j],
                    ).remove(entity),
            decreases n - k,
        {
            let slot = &mut self.members[k];
            slot.remove(entity);
            k = k + 1;
        }
        proof {
            let pre = *old(self);
            assert forall|m: Matcher| self.registered(m) == pre.registered(m) by {
                if pre.registered(m) {
                    let j = pre.index_of(m);
                    assert(self.matcher_at(j).same_key(m));
                }
                if self.registered(m) {
                    let j = self.index_of(m);
                    assert(pre.matcher_at(j).same_key(m));
                }
            }
            assert forall|m: Matcher| pre.registered(m) implies self.members_of(m)
                == pre.members_of(m).remove(entity) by {
                let j = pre.index_of(m);
                pre.lemma_entry_at(j, m);
                self.lemma_entry_at(j, m);
            }
        }
    }

    /// The members of a registered matcher key, in ascending order;
    /// `None` when the key was never registered.
    pub fn try_entities(&self, matcher: &Matcher) -> (r: Option<Vec<usize>>)
        requires
            self.wf(),
        ensures
            match r {
                Some(v) => {
                    &&& self.registered(*matcher)
                    &&& forall|e: usize|
                        v@.contains(e) <==> self.members_of(*matcher).contains(e)
                    &&& forall|i: int, j: int| 0 <= i < j < v@.len() ==> v@[i] < v@[j]
                },
                None => !self.registered(*matcher),
            },
    {
        let n = self.matchers.len();
        let mut k: usize = 0;
        while k < n
            invariant
                n == self.matchers@.len(),
                k <= n,
                self.wf(),
                forall|j: int| 0 <= j < k ==> !(#[trigger] self.matchers@[j]).same_key(*matcher),
            decreases n - k,
        {
            if self.matchers[k].same_as(matcher) {
                proof {
                    self.lemma_entry_at(k as int, *matcher);
                }
                return Some(self.members[k].to_vec());
            }
            k = k + 1;
        }
        None
    }

    /// The members of a registered matcher key, in ascending order.
    /// Querying an unregistered key is a caller error, excluded here.
    pub fn entities(&self, matcher: &Matcher) -> (r: Vec<usize>)
        requires
            self.wf(),
            self.registered(*matcher),
        ensures
            forall|e: usize| r@.contains(e) <==> self.members_of(*matcher).contains(e),
            forall|i: int, j: int| 0 <= i < j < r@.len() ==> r@[i] < r@[j],
    {
        match self.try_entities(matcher) {
            Some(v) => v,
            None => vstd::pervasive::unreached(),
        }
    }
}

/// A handle naming one alive entity.
pub struct EntityEditor {
    pub entity: Entity,
}

/// The entity layer of a world: identifier storage, per-entity presence
/// bits, the aspect index and the component registry, kept consistent.
pub struct EntityManager {
    storage: EntityStorage,
    states: EntityStates,
    index: AspectIndex,
    pub component_manager: ComponentManager,
}

impl EntityManager {
    /// The entities currently alive.
    pub closed spec fn alive(self) -> Set<usize> {
        self.storage.alive_ids()
    }

    /// The component ids an entity currently has.
    pub closed spec fn state_of(self, entity: usize) -> Set<usize> {
        self.states.state_of(entity)
    }

    /// Whether a matcher key is registered with the aspect index.
    pub closed spec fn aspect_registered(self, m: Matcher) -> bool {
        self.index.registered(m)
    }

    /// The component registry, as a value: unchanged by entity mutations.
    pub closed spec fn registry(self) -> ComponentManager {
        self.component_manager
    }

    /// The next never-used identifier.
    pub closed spec fn counter(self) -> usize {
        self.storage.counter()
    }

    /// The identifiers waiting to be reused, oldest first.
    pub closed spec fn limbo(self) -> Seq<usize> {
        self.storage.limbo_ids()
    }

    /// Whether a fresh identifier can still be allocated.
    pub open spec fn can_create(self) -> bool {
        self.limbo().len() > 0 || self.counter() < usize::MAX
    }

    /// The alive entities whose presence bits satisfy one index entry.
    spec fn matching_set(self, k: int) -> Set<usize> {
        Set::new(
            |e: usize| self.alive().contains(e) && self.index.matcher_at(k).matches(
                self.state_of(e),
            ),
        )
    }

    /// The parts are well-formed, an entity that is not alive has no
    /// presence bits, and every index entry's member set is exactly the
    /// set of alive entities whose presence bits satisfy its matcher.
    pub closed spec fn inv(self) -> bool {
        &&& self.storage.wf()
        &&& self.index.wf()
        &&& forall|e: usize|
            !self.alive().contains(e) ==> self.state_of(e) == Set::<usize>::empty()
        &&& forall|k: int|
            0 <= k < self.index.entry_count() ==> (#[trigger] self.index.members_at(k))
                == self.matching_set(k)
    }

    pub fn new() -> (r: Self)
        ensures
            r.inv(),
            r.alive() == Set::<usize>::empty(),
            forall|e: usize| r.state_of(e) == Set::<usize>::empty(),
            forall|m: Matcher| !r.aspect_registered(m),
            r.can_create(),
            r.counter() == 0,
            r.limbo() == Seq::<usize>::empty(),
            r.registry().wf(),
            r.registry().count() == 0,
            forall|t: u64| !r.registry().registered(t),
    {
        EntityManager {
            storage: EntityStorage::new(),
            states: EntityStates::new(),
            index: AspectIndex::new(),
            component_manager: ComponentManager::new(),
        }
    }

    /// Creates a fresh entity with no presence bits and hands back its
    /// editor handle; the aspect index is brought up to date for it.
    pub fn create(&mut self) -> (r: EntityEditor)
        requires
            old(self).inv(),
            old(self).can_create(),
        ensures
            final(self).inv(),
            !old(self).alive().contains(r.entity),
            final(self).alive() == old(self).alive().insert(r.entity),
            final(self).state_of(r.entity) == Set::<usize>::empty(),
            forall|e: usize| final(self).state_of(e) == old(self).state_of(e),
            forall|m: Matcher|
                final(self).aspect_registered(m) == old(self).aspect_registered(m),
            final(self).registry() == old(self).registry(),
            old(self).limbo().len() > 0 ==> r.entity == old(self).limbo()[0]
                && final(self).limbo() == old(self).limbo().drop_first()
                && final(self).counter() == old(self).counter(),
            old(self).limbo().len() == 0 ==> r.entity == old(self).counter()
                && final(self).limbo() == old(self).limbo()
                && final(self).counter() == old(self).counter() + 1,
    {
        let entity = self.storage.create();
        self.states.reset(entity);
        let snap = self.states.snapshot(entity);
        self.index.update(entity, &snap);
        proof {
            assert forall|e: usize|
                !self.alive().contains(e) implies self.state_of(e)
                == Set::<usize>::empty() by {
                if e != entity {
                    assert(!old(self).alive().contains(e));
                    assert(self.state_of(e) == old(self).state_of(e));
                }
            }
            self.lemma_update_restores_inv(*old(self), entity);
        }
        EntityEditor { entity }
    }

    /// After the storage, states and index steps of a mutation on one
    /// entity, the consistency invariant holds again: presence bits of
    /// other entities are untouched and the index was re-evaluated with
    /// the entity's current bits.
    proof fn lemma_update_restores_inv(&self, pre: EntityManager, entity: usize)
        requires
            pre.index.wf(),
            self.storage.wf(),
            self.index.wf(),
            forall|k: int|
                0 <= k < pre.index.entry_count() ==> (#[trigger] pre.index.members_at(k))
                    == pre.matching_set(k),
            forall|e: usize|
                !pre.alive().contains(e) ==> pre.state_of(e) == Set::<usize>::empty(),
            self.alive() == pre.alive().insert(entity) || self.alive() == pre.alive(),
            self.alive().contains(entity),
            forall|e: usize| e != entity ==> self.state_of(e) == pre.state_of(e),
            forall|e: usize|
                !self.alive().contains(e) ==> self.state_of(e) == Set::<usize>::empty(),
            self.index.entry_count() == pre.index.entry_count(),
            forall|k: int|
                0 <= k < pre.index.entry_count() ==> self.index.matcher_at(k)
                    == pre.index.matcher_at(k),
            forall|k: int|
                0 <= k < pre.index.entry_count() ==> self.index.members_at(k) == (if pre.index.matcher_at(
                    k,
                ).matches(self.state_of(entity)) {
                    pre.index.members_at(k).insert(entity)
                } else {
                    pre.index.members_at(k).remove(entity)
                }),
        ensures
            self.inv(),
    {
        assert forall|k: int|
            0 <= k < self.index.entry_count() implies (#[trigger] self.index.members_at(k))
            == self.matching_set(k) by {
            let m = self.index.matcher_at(k);
            assert forall|x: usize|
                self.index.members_at(k).contains(x) == self.matching_set(k).contains(x) by {
                if x != entity {
                    assert(pre.index.members_at(k).contains(x) == pre.matching_set(k).contains(
                        x,
                    ));
                    assert(self.state_of(x) == pre.state_of(x));
                    if !pre.alive().contains(x) && self.alive().contains(x) {
                        assert(self.alive() == pre.alive().insert(entity));
                    }
                }
            }
            assert(self.index.members_at(k) =~= self.matching_set(k));
        }
    }

    /// Hands back an editor for an already alive entity. Asking for one
    /// that is not alive is a caller error, excluded here.
    pub fn editor(&self, entity: Entity) -> (r: EntityEditor)
        requires
            self.alive().contains(entity),
        ensures
            r.entity == entity,
    {
        EntityEditor { entity }
    }

    pub fn is_alive(&self, entity: Entity) -> (r: bool)
        ensures
            r == self.alive().contains(entity),
    {
        self.storage.is_alive(entity)
    }

    /// Destroys an alive entity: its identifier joins the reuse pool, its
    /// presence bits are cleared, and it leaves every member set.
    pub fn destroy(&mut self, entity: Entity)
        requires
            old(self).inv(),
            old(self).alive().contains(entity),
        ensures
            final(self).inv(),
            final(self).alive() == old(self).alive().remove(entity),
            final(self).state_of(entity) == Set::<usize>::empty(),
            forall|e: usize| e != entity ==> final(self).state_of(e) == old(self).state_of(e),
            forall|m: Matcher|
                final(self).aspect_registered(m) == old(self).aspect_registered(m),
            final(self).registry() == old(self).registry(),
            final(self).can_create(),
            final(self).limbo() == old(self).limbo().push(entity),
            final(self).counter() == old(self).counter(),
    {
        proof {
            assert(entity < old(self).storage.counter());
        }
        self.storage.destroy(entity);
        self.states.reset(entity);
        self.index.remove(entity);
        proof {
            let pre = *old(self);
            assert forall|e: usize|
                !self.alive().contains(e) implies self.state_of(e)
                == Set::<usize>::empty() by {
                if e != entity {
                    assert(!pre.alive().contains(e));
                    assert(self.state_of(e) == pre.state_of(e));
                }
            }
            assert forall|k: int|
                0 <= k < self.index.entry_count() implies (#[trigger] self.index.members_at(k))
                == self.matching_set(k) by {
                assert forall|x: usize|
                    self.index.members_at(k).contains(x) == self.matching_set(k).contains(
                    x,
                ) by {
                    if x != entity {
                        assert(pre.index.members_at(k).contains(x) == pre.matching_set(
                            k,
                        ).contains(x));
                        assert(self.state_of(x) == pre.state_of(x));
                    }
                }
                assert(self.index.members_at(k) =~= self.matching_set(k));
            }
        }
    }

    /// Marks a component id present on an alive entity and re-evaluates
    /// the index; reports whether presence changed.
    pub fn add(&mut self, entity: Entity, component: ComponentId) -> (r: bool)
        requires
            old(self).inv(),
            old(self).alive().contains(entity),
        ensures
            final(self).inv(),
            r == !old(self).state_of(entity).contains(component),
            final(self).state_of(entity) == old(self).state_of(entity).insert(component),
            forall|e: usize| e != entity ==> final(self).state_of(e) == old(self).state_of(e),
            final(self).alive() == old(self).alive(),
            forall|m: Matcher|
                final(self).aspect_registered(m) == old(self).aspect_registered(m),
            final(self).registry() == old(self).registry(),
            final(self).counter() == old(self).counter(),
            final(self).limbo() == old(self).limbo(),
    {
        proof {
            assert(entity < old(self).storage.counter());
        }
        let fresh = !self.states.contains_bit(entity, component);
        self.states.set_bit(entity, component);
        let snap = self.states.snapshot(entity);
        self.index.update(entity, &snap);
        proof {
            assert forall|e: usize|
                !self.alive().contains(e) implies self.state_of(e)
                == Set::<usize>::empty() by {
                if e != entity {
                    assert(!old(self).alive().contains(e));
                    assert(self.state_of(e) == old(self).state_of(e));
                }
            }
            self.lemma_update_restores_inv(*old(self), entity);
        }
        fresh
    }

    /// Marks a component id absent on an alive entity and re-evaluates
    /// the index; reports whether presence changed.
    pub fn remove(&mut self, entity: Entity, component: ComponentId) -> (r: bool)
        requires
            old(self).inv(),
            old(self).alive().contains(entity),
        ensures
            final(self).inv(),
            r == old(self).state_of(entity).contains(component),
            final(self).state_of(entity) == old(self).state_of(entity).remove(component),
            forall|e: usize| e != entity ==> final(self).state_of(e) == old(self).state_of(e),
            final(self).alive() == old(self).alive(),
            forall|m: Matcher|
                final(self).aspect_registered(m) == old(self).aspect_registered(m),
            final(self).registry() == old(self).registry(),
            final(self).counter() == old(self).counter(),
            final(self).limbo() == old(self).limbo(),
    {
        proof {
            assert(entity < old(self).storage.counter());
        }
        let had = self.states.contains_bit(entity, component);
        self.states.clear_bit(entity, component);
        let snap = self.states.snapshot(entity);
        self.index.update(entity, &snap);
        proof {
            assert forall|e: usize|
                !self.alive().contains(e) implies self.state_of(e)
                == Set::<usize>::empty() by {
                if e != entity {
                    assert(!old(self).alive().contains(e));
                    assert(self.state_of(e) == old(self).state_of(e));
                }
            }
            self.lemma_update_restores_inv(*old(self), entity);
        }
        had
    }

    /// Whether an alive entity currently has a component id.
    pub fn contains(&self, entity: Entity, component: ComponentId) -> (r: bool)
        requires
            self.alive().contains(entity),
        ensures
            r == self.state_of(entity).contains(component),
    {
        self.states.contains_bit(entity, component)
    }

    /// Re-evaluates the index for an alive entity against its current
    /// bits. Under the invariant this changes nothing: committing an
    /// entity whose mutations were already indexed is idempotent.
    pub fn commit(&mut self, entity: Entity)
        requires
            old(self).inv(),
            old(self).alive().contains(entity),
        ensures
            final(self).inv(),
            final(self).alive() == old(self).alive(),
            forall|e: usize| final(self).state_of(e) == old(self).state_of(e),
            forall|m: Matcher|
                final(self).aspect_registered(m) == old(self).aspect_registered(m),
            forall|m: Matcher|
                old(self).aspect_registered(m) ==> final(self).aspect_members(m) == old(
                    self,
                ).aspect_members(m),
            final(self).registry() == old(self).registry(),
            final(self).counter() == old(self).counter(),
            final(self).limbo() == old(self).limbo(),
    {
        let snap = self.states.snapshot(entity);
        self.index.update(entity, &snap);
        proof {
            let pre = *old(self);
            assert forall|e: usize|
                !self.alive().contains(e) implies self.state_of(e)
                == Set::<usize>::empty() by {
                if e != entity {
                    assert(!pre.alive().contains(e));
                    assert(self.state_of(e) == pre.state_of(e));
                }
            }
            self.lemma_update_restores_inv(pre, entity);
            assert forall|m: Matcher| pre.aspect_registered(m) implies self.aspect_members(m)
                == pre.aspect_members(m) by {
                let k = pre.index.index_of(m);
                pre.index.lemma_entry_at(k, m);
                self.index.lemma_entry_at(k, m);
                assert(self.index.members_at(k) =~= pre.index.members_at(k));
            }
        }
    }

    /// The member set of a registered matcher key.
    pub closed spec fn aspect_members(self, m: Matcher) -> Set<usize> {
        self.index.members_of(m)
    }

    /// Registers a component type by its token, assigning its id.
    /// Registering a token twice is a caller error, excluded here.
    pub fn register_component(&mut self, token: u64) -> (r: ComponentId)
        requires
            old(self).registry().wf(),
            !old(self).registry().registered(token),
            old(self).registry().count() < usize::MAX,
        ensures
            final(self).registry().wf(),
            r == old(self).registry().count() + 1,
            final(self).registry().count() == old(self).registry().count() + 1,
            final(self).registry().registered(token),
            final(self).registry().id_of(token) == r,
            forall|t: u64|
                t != token ==> final(self).registry().registered(t)
                    == old(self).registry().registered(t),
            forall|t: u64|
                t != token && old(self).registry().registered(t)
                    ==> final(self).registry().id_of(t) == old(self).registry().id_of(t),
            old(self).inv() ==> final(self).inv(),
            final(self).alive() == old(self).alive(),
            forall|e: usize| final(self).state_of(e) == old(self).state_of(e),
            forall|m: Matcher|
                final(self).aspect_registered(m) == old(self).aspect_registered(m),
            final(self).counter() == old(self).counter(),
            final(self).limbo() == old(self).limbo(),
    {
        let r = self.component_manager.register(token);
        proof {
            if old(self).inv() {
                assert forall|e: usize|
                    !self.alive().contains(e) implies self.state_of(e)
                    == Set::<usize>::empty() by {
                    assert(!old(self).alive().contains(e));
                    assert(self.state_of(e) == old(self).state_of(e));
                }
                assert forall|k: int|
                    0 <= k < self.index.entry_count() implies (#[trigger] self.index.members_at(
                    k,
                )) == self.matching_set(k) by {
                    assert(old(self).index.members_at(k) == old(self).matching_set(k));
                    assert(self.matching_set(k) =~= old(self).matching_set(k));
                }
            }
        }
        r
    }

    /// Registers a matcher key, idempotently. Registration happens at
    /// setup: no alive entity may already satisfy the new matcher.
    pub fn register(&mut self, matcher: &Matcher)
        requires
            old(self).inv(),
            forall|e: usize|
                old(self).alive().contains(e) ==> !matcher.matches(old(self).state_of(e)),
        ensures
            final(self).inv(),
            final(self).aspect_registered(*matcher),
            forall|m: Matcher|
                old(self).aspect_registered(m) ==> final(self).aspect_registered(m),
            final(self).alive() == old(self).alive(),
            forall|e: usize| final(self).state_of(e) == old(self).state_of(e),
            final(self).registry() == old(self).registry(),
            final(self).counter() == old(self).counter(),
            final(self).limbo() == old(self).limbo(),
    {
        self.index.register(matcher);
        proof {
            let pre = *old(self);
            assert forall|e: usize|
                !self.alive().contains(e) implies self.state_of(e)
                == Set::<usize>::empty() by {
                assert(!pre.alive().contains(e));
                assert(self.state_of(e) == pre.state_of(e));
            }
            if !pre.index.registered(*matcher) {
                let n = pre.index.entry_count() as int;
                assert forall|k: int|
                    0 <= k < self.index.entry_count() implies (#[trigger] self.index.members_at(
                    k,
                )) == self.matching_set(k) by {
                    if k < n {
                        assert(pre.index.members_at(k) == pre.matching_set(k));
                        assert(self.index.members_at(k) =~= self.matching_set(k));
                    } else {
                        assert(self.index.matcher_at(k).same_key(*matcher));
                        assert forall|x: usize| !self.matching_set(k).contains(x) by {
                            if self.alive().contains(x) {
                                assert(pre.alive().contains(x));
                                assert(!matcher.matches(pre.state_of(x)));
                                assert(self.state_of(x) == pre.state_of(x));
                                assert(self.index.matcher_at(k).matches(self.state_of(x))
                                    == matcher.matches(self.state_of(x)));
                            }
                        }
                        assert(self.index.members_at(k) =~= self.matching_set(k));
                    }
                }
            }
        }
    }

    /// Matchers with the same key are interchangeable as index queries.
    pub proof fn lemma_aspect_registered_same_key(&self, a: Matcher, b: Matcher)
        requires
            self.inv(),
            a.same_key(b),
        ensures
            self.aspect_registered(a) == self.aspect_registered(b),
    {
        self.index.lemma_registered_same_key(a, b);
    }

    /// The entities of a registered matcher key, ascending: exactly the
    /// alive entities whose presence bits satisfy the matcher.
    pub fn entities(&self, matcher: &Matcher) -> (r: Vec<usize>)
        requires
            self.inv(),
            self.aspect_registered(*matcher),
        ensures
            forall|e: usize|
                r@.contains(e) <==> (self.alive().contains(e) && matcher.matches(
                    self.state_of(e),
                )),
            forall|i: int, j: int| 0 <= i < j < r@.len() ==> r@[i] < r@[j],
    {
        let r = self.index.entities(matcher);
        proof {
            let k = self.index.index_of(*matcher);
            self.index.lemma_entry_at(k, *matcher);
        }
        r
    }

    /// Like `entities`, with `None` for an unregistered matcher key.
    pub fn try_entities(&self, matcher: &Matcher) -> (r: Option<Vec<usize>>)
        requires
            self.inv(),
        ensures
            match r {
                Some(v) => {
                    &&& self.aspect_registered(*matcher)
                    &&& forall|e: usize|
                        v@.contains(e) <==> (self.alive().contains(e) && matcher.matches(
                            self.state_of(e),
                        ))
                    &&& forall|i: int, j: int| 0 <= i < j < v@.len() ==> v@[i] < v@[j]
                },
                None => !self.aspect_registered(*matcher),
            },
    {
        let r = self.index.try_entities(matcher);
        proof {
            if self.index.registered(*matcher) {
                let k = self.index.index_of(*matcher);
                self.index.lemma_entry_at(k, *matcher);
            }
        }
        r
    }
}

} // verus!
