//! Keyed lists: the mathematical model of the module's storage maps.
//!
//! A keyed list holds its entries in the order in which their keys first came,
//! so that walking a map gives the same order on every node.

use vstd::prelude::*;

verus! {

/// A finite map from keys to values that remembers the order of its keys.
pub struct Assoc<W> {
    pub keys: Seq<u64>,
    pub vals: Seq<W>,
}

impl<W> Assoc<W> {
    /// The map without entries.
    pub open spec fn empty() -> Self {
        Assoc { keys: Seq::empty(), vals: Seq::empty() }
    }

    /// Each key has one value and occurs once.
    pub open spec fn wf(self) -> bool {
        &&& self.keys.len() == self.vals.len()
        &&& self.keys.no_duplicates()
    }

    pub open spec fn len(self) -> nat {
        self.keys.len()
    }

    pub open spec fn contains(self, k: u64) -> bool {
        self.keys.contains(k)
    }

    /// The place of a key that the map holds.
    pub open spec fn index(self, k: u64) -> int {
        self.keys.index_of(k)
    }

    pub open spec fn get(self, k: u64) -> Option<W> {
        if self.contains(k) {
            Some(self.vals[self.index(k)])
        } else {
            None
        }
    }

    /// The map with `k` bound to `w`: in place where the key is held already,
    /// at the end where it is new.
    pub open spec fn put(self, k: u64, w: W) -> Self {
        if self.contains(k) {
            Assoc { keys: self.keys, vals: self.vals.update(self.index(k), w) }
        } else {
            Assoc { keys: self.keys.push(k), vals: self.vals.push(w) }
        }
    }

    /// The map without the key `k`.
    pub open spec fn del(self, k: u64) -> Self {
        if self.contains(k) {
            Assoc { keys: self.keys.remove(self.index(k)), vals: self.vals.remove(self.index(k)) }
        } else {
            self
        }
    }

    /// Where a key stands, no other place holds it.
    pub proof fn lemma_index_unique(self, k: u64, i: int)
        requires
            self.wf(),
            0 <= i < self.keys.len(),
            self.keys[i] == k,
        ensures
            self.contains(k),
            self.index(k) == i,
            self.get(k) == Some(self.vals[i]),
    {
        assert(self.keys.contains(k));
        let j = self.keys.index_of(k);
        assert(self.keys[j] == k);
    }

    /// `put` keeps the list well formed, binds the key and leaves the others.
    pub proof fn lemma_put(self, k: u64, w: W)
        requires
            self.wf(),
        ensures
            self.put(k, w).wf(),
            self.put(k, w).contains(k),
            self.put(k, w).get(k) == Some(w),
            forall|j: u64| j != k ==> self.put(k, w).contains(j) == self.contains(j),
            forall|j: u64| j != k ==> self.put(k, w).get(j) == self.get(j),
    {
        let p = self.put(k, w);
        if self.contains(k) {
            let i = self.index(k);
            p.lemma_index_unique(k, i);
            assert forall|j: u64| j != k implies p.get(j) == self.get(j) by {
                if self.contains(j) {
                    let ij = self.index(j);
                    assert(ij != i);
                }
            }
        } else {
            let n = self.keys.len() as int;
            assert(p.keys.no_duplicates()) by {
                assert forall|a: int, b: int|
                    0 <= a < p.keys.len() && 0 <= b < p.keys.len() && a != b implies p.keys[a]
                    != p.keys[b] by {
                    if a == n {
                        assert(self.keys[b] == p.keys[b]);
                    } else if b == n {
                        assert(self.keys[a] == p.keys[a]);
                    }
                }
            }
            p.lemma_index_unique(k, n);
            assert forall|j: u64| j != k implies p.contains(j) == self.contains(j) && p.get(j)
                == self.get(j) by {
                if self.contains(j) {
                    let ij = self.index(j);
                    assert(p.keys[ij] == j);
                    p.lemma_index_unique(j, ij);
                }
                if p.contains(j) {
                    let ij = p.index(j);
                    assert(ij != n);
                    assert(self.keys[ij] == j);
                }
            }
        }
    }

    /// `del` keeps the list well formed, drops the key and leaves the others.
    pub proof fn lemma_del(self, k: u64)
        requires
            self.wf(),
        ensures
            self.del(k).wf(),
            !self.del(k).contains(k),
            forall|j: u64| j != k ==> self.del(k).contains(j) == self.contains(j),
            forall|j: u64| j != k ==> self.del(k).get(j) == self.get(j),
    {
        let d = self.del(k);
        if self.contains(k) {
            let i = self.index(k);
            assert forall|a: int| 0 <= a < d.keys.len() implies d.keys[a] == self.keys[if a < i {
                a
            } else {
                a + 1
            }] by {}
            assert(d.keys.no_duplicates());
            if d.contains(k) {
                let a = d.index(k);
                assert(self.keys[if a < i {
                    a
                } else {
                    a + 1
                }] == k);
            }
            assert forall|j: u64| j != k implies d.contains(j) == self.contains(j) && d.get(j)
                == self.get(j) by {
                if self.contains(j) {
                    let ij = self.index(j);
                    let a = if ij < i {
                        ij
                    } else {
                        ij - 1
                    };
                    assert(d.keys[a] == j);
                    d.lemma_index_unique(j, a);
                }
                if d.contains(j) {
                    let a = d.index(j);
                    assert(self.keys[if a < i {
                        a
                    } else {
                        a + 1
                    }] == j);
                }
            }
        }
    }
}


/// Every value of the map passes `p`.
pub open spec fn all_values<W>(a: Assoc<W>, p: spec_fn(W) -> bool) -> bool {
    forall|i: int| 0 <= i < a.vals.len() ==> p(#[trigger] a.vals[i])
}

/// Binding a key to a value that passes keeps all values passing.
pub proof fn lemma_put_all_values<W>(a: Assoc<W>, k: u64, w: W, p: spec_fn(W) -> bool)
    requires
        a.wf(),
        all_values(a, p),
        p(w),
    ensures
        all_values(a.put(k, w), p),
{
    let b = a.put(k, w);
    assert forall|i: int| 0 <= i < b.vals.len() implies p(#[trigger] b.vals[i]) by {
        if a.contains(k) {
            if i != a.index(k) {
                assert(b.vals[i] == a.vals[i]);
            }
        } else {
            if i < a.vals.len() {
                assert(b.vals[i] == a.vals[i]);
            }
        }
    }
}

/// Dropping a key keeps all values passing.
pub proof fn lemma_del_all_values<W>(a: Assoc<W>, k: u64, p: spec_fn(W) -> bool)
    requires
        a.wf(),
        all_values(a, p),
    ensures
        all_values(a.del(k), p),
{
    let b = a.del(k);
    if a.contains(k) {
        let at = a.index(k);
        assert forall|i: int| 0 <= i < b.vals.len() implies p(#[trigger] b.vals[i]) by {
            assert(b.vals[i] == a.vals[if i < at {
                i
            } else {
                i + 1
            }]);
        }
    }
}


/// No key of `a` is a key of `b`.
pub open spec fn disjoint_keys<A, B>(a: Assoc<A>, b: Assoc<B>) -> bool {
    forall|i: int| 0 <= i < a.keys.len() ==> !b.contains(#[trigger] a.keys[i])
}

/// Two maps with no key in common have none in common after keys left them,
/// or after a key came to one that the other does not hold.
pub proof fn lemma_disjoint_keys<A, B>(a: Assoc<A>, b: Assoc<B>, a2: Assoc<A>, b2: Assoc<B>)
    requires
        disjoint_keys(a, b),
        forall|k: u64| #[trigger] a2.contains(k) && b2.contains(k) ==> a.contains(k) && b.contains(k),
    ensures
        disjoint_keys(a2, b2),
{
    assert forall|i: int| 0 <= i < a2.keys.len() implies !b2.contains(#[trigger] a2.keys[i]) by {
        let k = a2.keys[i];
        assert(a2.contains(k));
        if b2.contains(k) {
            let j = a.index(k);
            assert(!b.contains(a.keys[j]));
        }
    }
}

} // verus!
