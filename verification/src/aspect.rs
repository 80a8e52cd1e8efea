//! Matchers: a required-set/excluded-set predicate over component ids,
//! compiled once from explicit id lists and used as the aspect index's key.

use vstd::prelude::*;

use crate::bits::bits_of;
use crate::bits::BitSet;
use crate::component::ComponentId;

verus! {

/// A pair of component-id sets: ids an entity must have, and ids it must
/// not have. Two matchers are the same key exactly when both sets agree.
pub struct Matcher {
    req: BitSet,
    excluded: BitSet,
}

impl Matcher {
    /// The component ids an entity must have.
    pub closed spec fn req_ids(self) -> Set<usize> {
        bits_of(self.req)
    }

    /// The component ids an entity must not have.
    pub closed spec fn excluded_ids(self) -> Set<usize> {
        bits_of(self.excluded)
    }

    /// The compiled predicate: every required id present, no excluded one.
    pub open spec fn matches(self, bits: Set<usize>) -> bool {
        self.req_ids().subset_of(bits) && self.excluded_ids().disjoint(bits)
    }

    /// Both matchers compile to the same pair of id sets.
    pub open spec fn same_key(self, other: Matcher) -> bool {
        self.req_ids() == other.req_ids() && self.excluded_ids() == other.excluded_ids()
    }

    /// Compiles a matcher from the required and the excluded component ids.
    pub fn new(required: &Vec<ComponentId>, excluded: &Vec<ComponentId>) -> (r: Matcher)
        ensures
            forall|c: usize| r.req_ids().contains(c) <==> required@.contains(c),
            forall|c: usize| r.excluded_ids().contains(c) <==> excluded@.contains(c),
    {
        Matcher { req: collect_ids(required), excluded: collect_ids(excluded) }
    }

    /// Decides whether presence bits satisfy the predicate.
    pub fn check(&self, bits: &BitSet) -> (r: bool)
        ensures
            r == self.matches(bits_of(*bits)),
    {
        self.req.is_subset(bits) && self.excluded.is_disjoint(bits)
    }

    /// Combines two matchers by uniting the required sets and uniting the
    /// excluded sets, as composing two aspect predicates does.
    pub fn union(&self, other: &Matcher) -> (r: Matcher)
        ensures
            r.req_ids() == self.req_ids().union(other.req_ids()),
            r.excluded_ids() == self.excluded_ids().union(other.excluded_ids()),
    {
        let mut req = self.req.clone();
        req.union_with(&other.req);
        let mut excluded = self.excluded.clone();
        excluded.union_with(&other.excluded);
        Matcher { req, excluded }
    }

    /// A copy of the required-id bitset.
    pub fn required(&self) -> (r: BitSet)
        ensures
            bits_of(r) == self.req_ids(),
    {
        self.req.clone()
    }

    /// A copy of the excluded-id bitset.
    pub fn excluded(&self) -> (r: BitSet)
        ensures
            bits_of(r) == self.excluded_ids(),
    {
        self.excluded.clone()
    }

    /// Decides whether the two matchers are the same key.
    pub fn same_as(&self, other: &Matcher) -> (r: bool)
        ensures
            r == self.same_key(*other),
    {
        self.req.eq_set(&other.req) && self.excluded.eq_set(&other.excluded)
    }
}

impl Clone for Matcher {
    fn clone(&self) -> (r: Self)
        ensures
            r.req_ids() == self.req_ids(),
            r.excluded_ids() == self.excluded_ids(),
    {
        Matcher { req: self.req.clone(), excluded: self.excluded.clone() }
    }
}

/// Gathers a list of component ids into a bitset.
fn collect_ids(ids: &Vec<ComponentId>) -> (r: BitSet)
    ensures
        forall|c: usize| bits_of(r).contains(c) <==> ids@.contains(c),
{
    let mut r = BitSet::new();
    let mut i: usize = 0;
    while i < ids.len()
        invariant
            i <= ids@.len(),
            forall|c: usize| bits_of(r).contains(c) <==> ids@.subrange(0, i as int).contains(c),
        decreases ids@.len() - i,
    {
        r.insert(ids[i]);
        proof {
            let s1 = ids@.subrange(0, i + 1 as int);
            let s0 = ids@.subrange(0, i as int);
            assert forall|c: usize| s1.contains(c) <==> (s0.contains(c) || c == ids@[i as int]) by {
                if s1.contains(c) {
                    let k = choose|k: int| 0 <= k < s1.len() && s1[k] == c;
                    if k < i {
                        assert(s0[k] == c);
                    }
                }
                if s0.contains(c) {
                    let k = choose|k: int| 0 <= k < s0.len() && s0[k] == c;
                    assert(s1[k] == c);
                }
                if c == ids@[i as int] {
                    assert(s1[i as int] == c);
                }
            }
        }
        i = i + 1;
    }
    proof {
        assert(ids@.subrange(0, ids@.len() as int) =~= ids@);
    }
    r
}

} // verus!
