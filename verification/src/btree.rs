//! Ordered baseline: the standard B-tree map, keyed by the total order on
//! the key type. Present to locate the crossover point where a balanced
//! ordered structure beats scanning; an equal-key insert replaces the
//! stored value, diverging from the scan variants' first-inserted-wins
//! order.

use vstd::prelude::*;

use crate::AssocMap;

verus! {

/// The standard ordered associative container, used as the tree baseline.
pub type BTreeMap<K, V> = std::collections::BTreeMap<K, V>;

impl<V> AssocMap<u32, V> for BTreeMap<u32, V> {
    open spec fn wf(&self) -> bool {
        true
    }

    /// Keyed lookup in the abstract map: the most recently inserted value
    /// for the key, since an equal-key insert replaces.
    open spec fn find_spec(&self, key: u32) -> Option<V> {
        if self@.contains_key(key) {
            Some(self@[key])
        } else {
            None
        }
    }

    /// Insertion overwrites: the abstract map gains or replaces the
    /// binding for the key.
    open spec fn inserted(pre: Self, post: Self, key: u32, value: V) -> bool {
        post@ == pre@.insert(key, value)
    }

    fn empty() -> (r: Self) {
        std::collections::BTreeMap::new()
    }

    fn insert(&mut self, key: u32, value: V) {
        self.insert(key, value);
    }

    fn find(&self, key: u32) -> (r: Option<&V>) {
        self.get(&key)
    }
}

} // verus!
