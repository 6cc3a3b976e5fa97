//! The storage map of the module: a keyed list held in two vectors.

use crate::assoc::Assoc;
use vstd::prelude::*;

verus! {

/// A map from a 64-bit key to a value, walked in the order in which the keys
/// first came.
#[derive(Clone, Debug, PartialEq, Eq)]
pub struct LinkedMap<V> {
    pub keys: Vec<u64>,
    pub vals: Vec<V>,
}

impl<V: View> View for LinkedMap<V> {
    type V = Assoc<V::V>;

    open spec fn view(&self) -> Assoc<V::V> {
        Assoc { keys: self.keys@, vals: self.vals@.map_values(|v: V| v@) }
    }
}

impl<V: View> LinkedMap<V> {
    /// Each key has one value and occurs once.
    pub open spec fn wf(&self) -> bool {
        self@.wf()
    }

    /// An empty map.
    pub fn new() -> (r: Self)
        ensures
            r@ == Assoc::<V::V>::empty(),
            r.wf(),
            r.keys@.len() == 0,
            r.vals@.len() == 0,
    {
        let r = LinkedMap { keys: Vec::new(), vals: Vec::new() };
        assert(r@.vals =~= Seq::<V::V>::empty());
        r
    }

    /// The number of entries.
    pub fn len(&self) -> (r: usize)
        requires
            self.wf(),
        ensures
            r == self@.len(),
    {
        self.keys.len()
    }

    /// The place of `key`, if the map holds it.
    pub fn position(&self, key: u64) -> (r: Option<usize>)
        requires
            self.wf(),
        ensures
            match r {
                Some(i) => self@.contains(key) && i == self@.index(key) && i < self.vals@.len()
                    && self.keys@[i as int] == key,
                None => !self@.contains(key),
            },
    {
        let n: usize = self.keys.len();
        let mut i: usize = 0;
        while i < n
            invariant
                self.wf(),
                n == self.keys@.len(),
                0 <= i <= n,
                forall|j: int| 0 <= j < i ==> self.keys@[j] != key,
            decreases n - i,
        {
            if self.keys[i] == key {
                proof {
                    self@.lemma_index_unique(key, i as int);
                }
                return Some(i);
            }
            i += 1;
        }
        None
    }

    /// Whether the map holds `key`.
    pub fn contains_key(&self, key: u64) -> (r: bool)
        requires
            self.wf(),
        ensures
            r == self@.contains(key),
    {
        self.position(key).is_some()
    }

    /// The value bound to `key`.
    pub fn get(&self, key: u64) -> (r: Option<&V>)
        requires
            self.wf(),
        ensures
            match r {
                Some(v) => self@.get(key) == Some(v@) && self@.contains(key) && *v
                    == self.vals@[self@.index(key)],
                None => !self@.contains(key),
            },
    {
        match self.position(key) {
            Some(i) => Some(&self.vals[i]),
            None => None,
        }
    }

    /// Binds `key` to `value`: in place where the map holds the key already, at
    /// the end where the key is new.
    pub fn insert(&mut self, key: u64, value: V)
        requires
            old(self).wf(),
        ensures
            final(self)@ == old(self)@.put(key, value@),
            final(self).wf(),
            old(self)@.contains(key) ==> {
                &&& final(self).keys@ == old(self).keys@
                &&& final(self).vals@ == old(self).vals@.update(old(self)@.index(key), value)
            },
            !old(self)@.contains(key) ==> {
                &&& final(self).keys@ == old(self).keys@.push(key)
                &&& final(self).vals@ == old(self).vals@.push(value)
            },
    {
        proof {
            self@.lemma_put(key, value@);
        }
        match self.position(key) {
            Some(i) => {
                let _ = self.vals.remove(i);
                self.vals.insert(i, value);
                assert(self.vals@ =~= old(self).vals@.update(i as int, value));
                assert(self@.vals =~= old(self)@.vals.update(i as int, value@));
            },
            None => {
                self.keys.push(key);
                self.vals.push(value);
                assert(self@.vals =~= old(self)@.vals.push(value@));
            },
        }
    }

    /// Takes the entry of `key` out of the map.
    pub fn remove(&mut self, key: u64) -> (r: Option<V>)
        requires
            old(self).wf(),
        ensures
            final(self)@ == old(self)@.del(key),
            final(self).wf(),
            match r {
                Some(v) => {
                    &&& old(self)@.contains(key)
                    &&& old(self)@.get(key) == Some(v@)
                    &&& v == old(self).vals@[old(self)@.index(key)]
                    &&& final(self).keys@ == old(self).keys@.remove(old(self)@.index(key))
                    &&& final(self).vals@ == old(self).vals@.remove(old(self)@.index(key))
                },
                None => {
                    &&& !old(self)@.contains(key)
                    &&& final(self).keys@ == old(self).keys@
                    &&& final(self).vals@ == old(self).vals@
                },
            },
    {
        proof {
            self@.lemma_del(key);
        }
        match self.position(key) {
            Some(i) => {
                let _ = self.keys.remove(i);
                let v = self.vals.remove(i);
                assert(self@.vals =~= old(self)@.vals.remove(i as int));
                Some(v)
            },
            None => None,
        }
    }
}

} // verus!
