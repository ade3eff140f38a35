//! A counter of how many times each value has been seen.
use std::collections::HashMap;
use std::hash::Hash;
use vstd::prelude::*;
use vstd::std_specs::hash::obeys_key_model;

verus! {

broadcast use vstd::std_specs::hash::group_hash_axioms;

/// Counts the appearances of values of type `K` handed to it.
pub struct Counter<K: Eq + Hash> {
    values: HashMap<K, u64>,
}

impl<K: Eq + Hash> View for Counter<K> {
    type V = Map<K, u64>;

    closed spec fn view(&self) -> Map<K, u64> {
        self.values@
    }
}

impl<K: Eq + Hash> Counter<K> {
    /// A counter that has seen nothing.
    pub fn new() -> (r: Self)
        ensures
            r@ == Map::<K, u64>::empty(),
    {
        Counter { values: HashMap::new() }
    }

    /// Records one more appearance of `value`. The key type must behave as a
    /// hash-table key, and no single count may run past `u64::MAX`.
    pub fn count(&mut self, value: K)
        requires
            obeys_key_model::<K>(),
            old(self)@.contains_key(value) ==> old(self)@[value] < u64::MAX,
        ensures
            final(self)@ == old(self)@.insert(
                value,
                if old(self)@.contains_key(value) {
                    (old(self)@[value] + 1) as u64
                } else {
                    1u64
                },
            ),
    {
        let seen: u64 = match self.values.get(&value) {
            Some(v) => *v,
            None => 0,
        };
        self.values.insert(value, seen + 1);
    }

    /// How many times `value` has been recorded; zero for a value never seen.
    pub fn times_seen(&self, value: K) -> (r: u64)
        ensures
            obeys_key_model::<K>() ==> r == if self@.contains_key(value) {
                self@[value]
            } else {
                0u64
            },
    {
        match self.values.get(&value) {
            Some(v) => *v,
            None => 0,
        }
    }
}

} // verus!
