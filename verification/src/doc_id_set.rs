//! An unordered set of document identifiers.
//!
//! Backed by a hash set for constant-time membership tests and a
//! duplicate-free vector for deterministic iteration; its mathematical view
//! is the `Set<DocId>` of its elements. Set operations iterate the smaller
//! operand and test membership against the larger one, bounding the work by
//! the smaller cardinality times an amortized constant-time lookup.

use vstd::prelude::*;

use std::collections::HashSet;

use crate::index_types::DocId;

verus! {

broadcast use vstd::std_specs::hash::group_hash_axioms;

/// A finite set of document ids with no attached order.
pub struct DocIdSet {
    lookup: HashSet<DocId>,
    ids: Vec<DocId>,
}

impl View for DocIdSet {
    type V = Set<DocId>;

    closed spec fn view(&self) -> Set<DocId> {
        self.lookup@
    }
}

/// The elements of `s.push(x)` are those of `s` plus `x`.
proof fn lemma_to_set_push(s: Seq<DocId>, x: DocId)
    ensures
        s.push(x).to_set() == s.to_set().insert(x),
{
    assert forall|y: DocId| s.push(x).to_set().contains(y) <==> s.to_set().insert(x).contains(
        y,
    ) by {
        if s.push(x).to_set().contains(y) {
            let i = choose|i: int| 0 <= i < s.push(x).len() && s.push(x)[i] == y;
            if i < s.len() {
                assert(s[i] == y);
            }
        }
        if s.to_set().contains(y) {
            let i = choose|i: int| 0 <= i < s.len() && s[i] == y;
            assert(s.push(x)[i] == y);
        }
        if y == x {
            assert(s.push(x)[s.len() as int] == y);
        }
    }
    assert(s.push(x).to_set() =~= s.to_set().insert(x));
}

/// Extending a prefix by one element inserts that element into the prefix's
/// element set.
proof fn lemma_take_succ_to_set(s: Seq<DocId>, i: int)
    requires
        0 <= i < s.len(),
    ensures
        s.take(i + 1).to_set() == s.take(i).to_set().insert(s[i]),
{
    assert(s.take(i + 1) =~= s.take(i).push(s[i]));
    lemma_to_set_push(s.take(i), s[i]);
}

impl DocIdSet {
    /// Validity: the backing vector holds each element exactly once, and the
    /// hash set holds exactly the vector's elements, so the vector's length
    /// is the set's cardinality. Every constructor establishes it and every
    /// operation preserves it.
    pub closed spec fn wf(&self) -> bool {
        self.ids@.no_duplicates() && self.ids@.to_set() == self.lookup@
    }

    /// The elements in storage order. Exposed only so that iteration
    /// (`len`, `nth`) can be specified; the order carries no meaning.
    pub closed spec fn elems(&self) -> Seq<DocId> {
        self.ids@
    }

    /// The empty set.
    pub fn empty() -> (r: Self)
        ensures
            r.wf(),
            r@ == Set::<DocId>::empty(),
            r.elems() == Seq::<DocId>::empty(),
    {
        let r = DocIdSet { lookup: HashSet::new(), ids: Vec::new() };
        proof {
            assert(r.ids@.to_set() =~= Set::<DocId>::empty());
        }
        r
    }

    /// How many document ids the set holds.
    pub fn len(&self) -> (n: usize)
        requires
            self.wf(),
        ensures
            n == self@.len(),
            n == self.elems().len(),
    {
        proof {
            self.ids@.unique_seq_to_set();
        }
        self.ids.len()
    }

    /// The element at position `i` of the storage order.
    pub fn nth(&self, i: usize) -> (id: DocId)
        requires
            self.wf(),
            i < self.elems().len(),
        ensures
            id == self.elems()[i as int],
            self@.contains(id),
    {
        proof {
            assert(self.ids@.contains(self.ids@[i as int]));
        }
        self.ids[i]
    }

    /// Whether `id` is in the set: one hash lookup, amortized constant time.
    pub fn contains(&self, id: DocId) -> (b: bool)
        ensures
            b == self@.contains(id),
    {
        self.lookup.contains(&id)
    }

    /// Add `id`; nothing changes if it is already present.
    pub fn insert(&mut self, id: DocId)
        requires
            old(self).wf(),
        ensures
            final(self).wf(),
            final(self)@ == old(self)@.insert(id),
            final(self).elems() == if old(self)@.contains(id) {
                old(self).elems()
            } else {
                old(self).elems().push(id)
            },
    {
        if !self.contains(id) {
            proof {
                lemma_to_set_push(self.ids@, id);
                assert(!self.ids@.contains(id));
                assert(self.ids@.push(id).no_duplicates());
            }
            self.ids.push(id);
            self.lookup.insert(id);
        } else {
            proof {
                assert(self.lookup@ =~= self.lookup@.insert(id));
            }
        }
    }

    /// A separate copy holding the same elements.
    pub fn duplicate(&self) -> (r: Self)
        requires
            self.wf(),
        ensures
            r.wf(),
            r@ == self@,
            r.elems() == self.elems(),
    {
        let n = self.ids.len();
        let mut r = DocIdSet::empty();
        let mut i: usize = 0;
        while i < n
            invariant
                self.wf(),
                n == self.ids@.len(),
                i <= n,
                r.wf(),
                r.elems() == self.ids@.take(i as int),
                r@ == self.ids@.take(i as int).to_set(),
            decreases n - i,
        {
            proof {
                assert forall|k: int| 0 <= k < i implies self.ids@.take(i as int)[k] != self.ids@[
                    i as int
                ] by {
                    assert(self.ids@.take(i as int)[k] == self.ids@[k]);
                }
                assert(!self.ids@.take(i as int).contains(self.ids@[i as int]));
                lemma_take_succ_to_set(self.ids@, i as int);
                assert(self.ids@.take(i as int).push(self.ids@[i as int]) =~= self.ids@.take(
                    i as int + 1,
                ));
            }
            r.insert(self.ids[i]);
            i += 1;
        }
        proof {
            assert(self.ids@.take(n as int) =~= self.ids@);
        }
        r
    }

    /// The intersection of the two sets, computed by iterating the smaller
    /// set and testing membership in the larger one.
    pub fn intersect(&self, other: &Self) -> (r: Self)
        requires
            self.wf(),
            other.wf(),
        ensures
            r.wf(),
            r@ == self@.intersect(other@),
    {
        let small: &DocIdSet;
        let big: &DocIdSet;
        if self.len() < other.len() {
            small = self;
            big = other;
        } else {
            small = other;
            big = self;
        }
        let n = small.len();
        let mut r = DocIdSet::empty();
        let mut i: usize = 0;
        while i < n
            invariant
                small.wf(),
                big.wf(),
                r.wf(),
                n == small.elems().len(),
                i <= n,
                r@ == small.elems().take(i as int).to_set().intersect(big@),
            decreases n - i,
        {
            let id = small.nth(i);
            if big.contains(id) {
                r.insert(id);
            }
            proof {
                lemma_take_succ_to_set(small.elems(), i as int);
                if big@.contains(id) {
                    assert(small.elems().take(i as int).to_set().insert(id).intersect(big@)
                        =~= small.elems().take(i as int).to_set().intersect(big@).insert(id));
                } else {
                    assert(small.elems().take(i as int).to_set().insert(id).intersect(big@)
                        =~= small.elems().take(i as int).to_set().intersect(big@));
                }
            }
            i += 1;
        }
        proof {
            assert(small.elems().take(n as int) =~= small.elems());
            assert(small.elems().to_set() =~= small@);
            assert(small@.intersect(big@) =~= self@.intersect(other@));
        }
        r
    }

    /// The union of the two sets, computed by copying the larger set and
    /// inserting the elements of the smaller one.
    pub fn union(&self, other: &Self) -> (r: Self)
        requires
            self.wf(),
            other.wf(),
        ensures
            r.wf(),
            r@ == self@.union(other@),
    {
        let small: &DocIdSet;
        let big: &DocIdSet;
        if self.len() < other.len() {
            small = self;
            big = other;
        } else {
            small = other;
            big = self;
        }
        let n = small.len();
        let mut r = big.duplicate();
        let mut i: usize = 0;
        while i < n
            invariant
                small.wf(),
                big.wf(),
                r.wf(),
                n == small.elems().len(),
                i <= n,
                r@ == big@.union(small.elems().take(i as int).to_set()),
            decreases n - i,
        {
            let id = small.nth(i);
            r.insert(id);
            proof {
                lemma_take_succ_to_set(small.elems(), i as int);
                assert(big@.union(small.elems().take(i as int).to_set()).insert(id) =~= big@.union(
                    small.elems().take(i as int).to_set().insert(id),
                ));
            }
            i += 1;
        }
        proof {
            assert(small.elems().take(n as int) =~= small.elems());
            assert(small.elems().to_set() =~= small@);
            assert(big@.union(small@) =~= self@.union(other@));
        }
        r
    }

    /// The document ids as a plain vector, in no meaningful order.
    pub fn to_vec(&self) -> (v: Vec<DocId>)
        requires
            self.wf(),
        ensures
            v@ == self.elems(),
            v@.to_set() == self@,
    {
        let d = self.duplicate();
        d.ids
    }
}

} // verus!
