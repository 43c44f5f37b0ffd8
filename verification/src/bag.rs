//! A multiset of keys backed by a `HashMap` from key to occurrence count.
//! Its contracts are exact whenever the key type obeys the hash-table key
//! model (every integer type does); the library itself only counts `u64`
//! token lengths with it.

use std::collections::HashMap;
use std::hash::Hash;
use vstd::prelude::*;
use vstd::std_specs::hash::obeys_key_model;

verus! {

pub struct Bag<K: Eq + Hash>(HashMap<K, usize>);

impl<K: Eq + Hash> View for Bag<K> {
    type V = Map<K, usize>;

    closed spec fn view(&self) -> Map<K, usize> {
        self.0@
    }
}

impl<K: Eq + Hash> Bag<K> {
    /// How many times `key` has been inserted: the recorded count, or zero
    /// for a key never seen.
    pub open spec fn spec_multiplicity(self, key: K) -> usize {
        if self@.contains_key(key) {
            self@[key]
        } else {
            0
        }
    }

    pub fn new() -> (r: Self)
        ensures
            r@ == Map::<K, usize>::empty(),
    {
        Self(HashMap::new())
    }

    pub fn with_capacity(capacity: usize) -> (r: Self)
        ensures
            r@ == Map::<K, usize>::empty(),
    {
        Self(HashMap::with_capacity(capacity))
    }

    /// Count one more occurrence of `key`.
    pub fn insert(&mut self, key: K)
        requires
            obeys_key_model::<K>() ==> old(self).spec_multiplicity(key) < usize::MAX,
        ensures
            obeys_key_model::<K>() ==> final(self)@ == old(self)@.insert(
                key,
                (old(self).spec_multiplicity(key) + 1) as usize,
            ),
    {
        let count: usize = match self.0.get(&key) {
            Some(c) => *c,
            None => 0,
        };
        let next: usize = if count < usize::MAX {
            count + 1
        } else {
            count
        };
        self.0.insert(key, next);
    }

    pub fn multiplicity(&self, key: &K) -> (r: usize)
        ensures
            obeys_key_model::<K>() ==> r == self.spec_multiplicity(*key),
    {
        match self.0.get(key) {
            Some(c) => *c,
            None => 0,
        }
    }

    pub fn inner(&self) -> (r: &HashMap<K, usize>)
        ensures
            r@ == self@,
    {
        &self.0
    }

    pub fn into_inner(self) -> (r: HashMap<K, usize>)
        ensures
            r@ == self@,
    {
        self.0
    }
}

impl<K: Eq + Hash> Default for Bag<K> {
    fn default() -> (r: Self)
        ensures
            r@ == Map::<K, usize>::empty(),
    {
        Self(HashMap::new())
    }
}

} // verus!
