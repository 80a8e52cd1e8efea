//! Component-type registration: each component type, identified by an
//! opaque type token, is assigned a stable small integer id on first
//! registration. Registration is append-only; re-registering a token or
//! asking for an unregistered one is a caller error, excluded by contract.

use vstd::prelude::*;

verus! {

/// A value type attachable to entities, naming its storage strategy.
pub trait Component: Sized {
    type Storage: crate::storage::RawStorage<Self>;
}

/// The stable integer id assigned to a registered component type.
pub type ComponentId = usize;

/// An opaque token standing for the identity of a component type.
pub type TypeToken = u64;

/// Assigns component ids to type tokens, first come first served.
pub struct ComponentManager {
    current: usize,
    ids: Vec<(TypeToken, ComponentId)>,
}

impl ComponentManager {
    /// How many component types have been registered.
    pub closed spec fn count(self) -> usize {
        self.current
    }

    /// Whether this token has been registered.
    pub closed spec fn registered(self, token: TypeToken) -> bool {
        exists|i: int| 0 <= i < self.ids@.len() && (#[trigger] self.ids@[i]).0 == token
    }

    /// The id that was assigned to a registered token.
    pub closed spec fn id_of(self, token: TypeToken) -> ComponentId {
        let i = choose|i: int| 0 <= i < self.ids@.len() && (#[trigger] self.ids@[i]).0 == token;
        self.ids@[i].1
    }

    /// Every token appears at most once, every assigned id appears at
    /// most once, and every assigned id lies between one and the count.
    pub closed spec fn wf(self) -> bool {
        &&& forall|i: int, j: int|
            0 <= i < j < self.ids@.len() ==> self.ids@[i].0 != self.ids@[j].0
        &&& forall|i: int, j: int|
            0 <= i < j < self.ids@.len() ==> self.ids@[i].1 != self.ids@[j].1
        &&& forall|i: int|
            0 <= i < self.ids@.len() ==> 1 <= (#[trigger] self.ids@[i]).1 <= self.current
    }

    proof fn lemma_id_at(self, i: int)
        requires
            self.wf(),
            0 <= i < self.ids@.len(),
        ensures
            self.registered(self.ids@[i].0),
            self.id_of(self.ids@[i].0) == self.ids@[i].1,
    {
        let token = self.ids@[i].0;
        let j = choose|j: int| 0 <= j < self.ids@.len() && (#[trigger] self.ids@[j]).0 == token;
        if i < j {
            assert(self.ids@[i].0 != self.ids@[j].0);
        } else if j < i {
            assert(self.ids@[j].0 != self.ids@[i].0);
        }
    }

    pub fn new() -> (r: Self)
        ensures
            r.wf(),
            r.count() == 0,
            forall|t: TypeToken| !r.registered(t),
    {
        ComponentManager { current: 0, ids: Vec::new() }
    }

    /// Assigns the next id to a token that was never registered before.
    pub fn register(&mut self, token: TypeToken) -> (r: ComponentId)
        requires
            old(self).wf(),
            !old(self).registered(token),
            old(self).count() < usize::MAX,
        ensures
            final(self).wf(),
            r == old(self).count() + 1,
            final(self).count() == old(self).count() + 1,
            final(self).registered(token),
            final(self).id_of(token) == r,
            forall|t: TypeToken|
                t != token ==> final(self).registered(t) == old(self).registered(t),
            forall|t: TypeToken|
                t != token && old(self).registered(t) ==> final(self).id_of(t) == old(
                    self,
                ).id_of(t),
            forall|t: TypeToken|
                t != token && old(self).registered(t) ==> final(self).id_of(t) != r,
    {
        self.current = self.current + 1;
        self.ids.push((token, self.current));
        proof {
            let pre = *old(self);
            let post = *self;
            let n = pre.ids@.len() as int;
            assert(post.ids@[n] == (token, post.current));
            post.lemma_id_at(n);
            assert forall|t: TypeToken| t != token && pre.registered(t) implies post.registered(t)
                && post.id_of(t) == pre.id_of(t) && post.id_of(t) != post.current by {
                let i = choose|i: int| 0 <= i < pre.ids@.len() && (#[trigger] pre.ids@[i]).0 == t;
                assert(post.ids@[i].0 == t);
                post.lemma_id_at(i);
                pre.lemma_id_at(i);
                assert(pre.ids@[i].1 <= pre.current);
            }
            assert forall|t: TypeToken| t != token && post.registered(t) implies pre.registered(
                t,
            ) by {
                let i = choose|i: int| 0 <= i < post.ids@.len() && (#[trigger] post.ids@[i]).0
                    == t;
                assert(pre.ids@[i].0 == t);
            }
        }
        self.current
    }

    /// Whether the token has already been registered.
    pub fn is_registered(&self, token: TypeToken) -> (r: bool)
        requires
            self.wf(),
        ensures
            r == self.registered(token),
    {
        let mut i: usize = 0;
        while i < self.ids.len()
            invariant
                i <= self.ids@.len(),
                forall|j: int| 0 <= j < i ==> (#[trigger] self.ids@[j]).0 != token,
            decreases self.ids@.len() - i,
        {
            if self.ids[i].0 == token {
                return true;
            }
            i = i + 1;
        }
        false
    }

    /// The id assigned to a registered token. Asking for an unregistered
    /// token is a caller error, excluded here.
    pub fn id(&self, token: TypeToken) -> (r: ComponentId)
        requires
            self.wf(),
            self.registered(token),
        ensures
            r == self.id_of(token),
    {
        let mut i: usize = 0;
        while i < self.ids.len()
            invariant
                self.wf(),
                self.registered(token),
                i <= self.ids@.len(),
                forall|j: int| 0 <= j < i ==> (#[trigger] self.ids@[j]).0 != token,
            decreases self.ids@.len() - i,
        {
            if self.ids[i].0 == token {
                proof {
                    self.lemma_id_at(i as int);
                }
                return self.ids[i].1;
            }
            i = i + 1;
        }
        proof {
            let w = choose|w: int| 0 <= w < self.ids@.len() && (#[trigger] self.ids@[w]).0
                == token;
            assert(self.ids@[w].0 != token);
        }
        vstd::pervasive::unreached()
    }
}

} // verus!
