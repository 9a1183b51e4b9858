//! The two plain scanning variants: a vector of records walked front to
//! back, and its structure-of-arrays split whose lookup touches only the
//! key array.

use vstd::prelude::*;

use crate::AssocMap;
use crate::model::{
    first_match, key_hit, keys_of, lemma_absent_key, lemma_first_match_at,
    lemma_first_match_insert_fresh, lemma_first_match_insert_other, lemma_key_hit_props,
};

verus! {

/// Append-only vector of `(key, value)` records; lookup is a front-to-back
/// linear scan that returns the earliest record carrying the key.
pub struct LinearMap<K, V> {
    data: Vec<(K, V)>,
}

impl<K, T> View for LinearMap<K, T> {
    type V = Seq<(K, T)>;

    /// The abstract state: the records in arrival order.
    closed spec fn view(&self) -> Seq<(K, T)> {
        self.data@
    }
}

impl<V> AssocMap<u32, V> for LinearMap<u32, V> {
    open spec fn wf(&self) -> bool {
        true
    }

    /// Lookup is the front-to-back scan over the records.
    open spec fn find_spec(&self, key: u32) -> Option<V> {
        first_match(self@, key)
    }

    /// Insertion appends the record to the arrival-ordered sequence.
    open spec fn inserted(pre: Self, post: Self, key: u32, value: V) -> bool {
        post@ == pre@.push((key, value))
    }

    fn empty() -> (r: Self) {
        let r = LinearMap { data: Vec::new() };
        proof {
            assert forall|k: u32| r.find_spec(k) is None by {
                lemma_absent_key(r@, k);
            }
        }
        r
    }

    fn insert(&mut self, key: u32, value: V) {
        self.data.push((key, value));
        proof {
            lemma_scan_append(old(self)@, key, value);
        }
    }

    fn find(&self, key: u32) -> (r: Option<&V>) {
        let n = self.data.len();
        let mut idx: usize = 0;
        while idx < n
            invariant
                n == self.data@.len(),
                idx <= n,
                forall|j: int| 0 <= j < idx ==> self.data@[j].0 != key,
            decreases n - idx,
        {
            if self.data[idx].0 == key {
                proof {
                    lemma_first_match_at(self@, key, idx as int);
                }
                return Some(&self.data[idx].1);
            }
            idx += 1;
        }
        proof {
            lemma_absent_key(self@, key);
        }
        None
    }
}

impl<V> Default for LinearMap<u32, V> {
    /// A fresh, empty map.
    fn default() -> (r: Self)
        ensures
            r.wf(),
            forall|k: u32| r.find_spec(k) is None,
    {
        Self::empty()
    }
}

/// Appending a record to a scanned record sequence: a present key keeps
/// its earliest record and value, an absent key now reports the new value,
/// every other key is untouched.
pub proof fn lemma_scan_append<V>(s: Seq<(u32, V)>, key: u32, value: V)
    ensures
        first_match(s, key) is Some ==> first_match(s.push((key, value)), key) == first_match(
            s,
            key,
        ),
        first_match(s, key) is None ==> first_match(s.push((key, value)), key) == Some(value),
        forall|k: u32|
            k != key ==> first_match(s.push((key, value)), k) == first_match(s, k),
{
    let p = (key, value);
    let pos = s.len() as int;
    let t = s.push(p);
    assert(t =~= s.insert(pos, p));
    lemma_key_hit_props(keys_of(s), key);
    let h = key_hit(keys_of(s), key);
    if h < s.len() {
        assert(t[h] == s[h]);
        assert(t[h].0 == key);
        assert forall|j: int| 0 <= j < h implies t[j].0 != key by {
            assert(t[j] == s[j]);
            assert(keys_of(s)[j] != key);
        }
        lemma_first_match_at(t, key, h);
    } else {
        lemma_first_match_insert_fresh(s, pos, p);
    }
    assert forall|k: u32| k != key implies first_match(t, k) == first_match(s, k) by {
        lemma_first_match_insert_other(s, pos, p, k);
    }
}

/// Structure-of-arrays split of the linear scan: keys and values live in
/// two vectors indexed in lockstep, so the lookup loop reads only the key
/// array and drags no value payload through the cache.
pub struct KvMap<K, V> {
    keys: Vec<K>,
    values: Vec<V>,
}

impl<K, T> View for KvMap<K, T> {
    type V = Seq<(K, T)>;

    /// The abstract state: the records in arrival order, re-zipped from the
    /// two parallel arrays.
    closed spec fn view(&self) -> Seq<(K, T)> {
        Seq::new(self.keys@.len(), |i: int| (self.keys@[i], self.values@[i]))
    }
}

impl<V> AssocMap<u32, V> for KvMap<u32, V> {
    /// The two arrays index-align: one value slot per inserted key.
    closed spec fn wf(&self) -> bool {
        self.keys@.len() == self.values@.len()
    }

    /// Lookup is the front-to-back scan over the re-zipped records.
    open spec fn find_spec(&self, key: u32) -> Option<V> {
        first_match(self@, key)
    }

    /// Insertion appends the record to the arrival-ordered sequence.
    open spec fn inserted(pre: Self, post: Self, key: u32, value: V) -> bool {
        post@ == pre@.push((key, value))
    }

    fn empty() -> (r: Self) {
        let r = KvMap { keys: Vec::new(), values: Vec::new() };
        proof {
            assert forall|k: u32| r.find_spec(k) is None by {
                lemma_absent_key(r@, k);
            }
        }
        r
    }

    fn insert(&mut self, key: u32, value: V) {
        self.keys.push(key);
        self.values.push(value);
        proof {
            assert(self@ =~= old(self)@.push((key, value)));
            lemma_scan_append(old(self)@, key, value);
        }
    }

    fn find(&self, key: u32) -> (r: Option<&V>) {
        let n = self.keys.len();
        // scan the key array alone; the value array is only touched on a hit
        let mut idx: usize = 0;
        while idx < n
            invariant
                n == self.keys@.len(),
                self.keys@.len() == self.values@.len(),
                idx <= n,
                forall|j: int| 0 <= j < idx ==> self.keys@[j] != key,
            decreases n - idx,
        {
            if self.keys[idx] == key {
                proof {
                    assert(self@[idx as int].0 == key);
                    assert forall|j: int| 0 <= j < idx implies self@[j].0 != key by {
                        assert(self@[j].0 == self.keys@[j]);
                    }
                    lemma_first_match_at(self@, key, idx as int);
                }
                return Some(&self.values[idx]);
            }
            idx += 1;
        }
        proof {
            assert forall|j: int| 0 <= j < self@.len() implies self@[j].0 != key by {
                assert(self@[j].0 == self.keys@[j]);
            }
            lemma_absent_key(self@, key);
        }
        None
    }
}

impl<V> Default for KvMap<u32, V> {
    /// A fresh, empty map.
    fn default() -> (r: Self)
        ensures
            r.wf(),
            forall|k: u32| r.find_spec(k) is None,
    {
        Self::empty()
    }
}

} // verus!
