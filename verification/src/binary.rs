//! The sorted-vector variant: records kept in ascending key order, looked
//! up by binary search.

use vstd::prelude::*;

use crate::AssocMap;
use crate::model::{
    first_match, key_hit, keys_of, lemma_absent_key, lemma_first_match_at,
    lemma_first_match_insert_fresh, lemma_first_match_insert_other, lemma_key_hit_props,
};

verus! {

/// Every pair of records is in ascending (non-strict) key order.
pub open spec fn sorted_by_key<V>(s: Seq<(u32, V)>) -> bool {
    forall|i: int, j: int| 0 <= i < j < s.len() ==> s[i].0 <= s[j].0
}

/// Vector of `(key, value)` records kept sorted ascending by key after
/// every insertion; lookup is a binary search for the leftmost record with
/// the queried key. A new record is placed behind every record whose key
/// is not greater, so the earliest record with a given key stays leftmost.
pub struct BinaryMap<K, V> {
    data: Vec<(K, V)>,
}

impl<K, T> View for BinaryMap<K, T> {
    type V = Seq<(K, T)>;

    /// The abstract state: the records in their stored (sorted) order.
    closed spec fn view(&self) -> Seq<(K, T)> {
        self.data@
    }
}

impl<V> AssocMap<u32, V> for BinaryMap<u32, V> {
    /// The stored records are sorted ascending by key.
    open spec fn wf(&self) -> bool {
        sorted_by_key(self@)
    }

    /// Lookup reports the leftmost stored record with the key — which, by
    /// the insertion discipline, is the earliest inserted one.
    open spec fn find_spec(&self, key: u32) -> Option<V> {
        first_match(self@, key)
    }

    /// Insertion enlarges the record multiset by the new record and
    /// re-establishes sorted order; where equal keys land among each other
    /// is the sort's business, not the contract's.
    open spec fn inserted(pre: Self, post: Self, key: u32, value: V) -> bool {
        &&& post@.to_multiset() == pre@.to_multiset().insert((key, value))
        &&& sorted_by_key(post@)
    }

    fn empty() -> (r: Self) {
        let r = BinaryMap { data: Vec::new() };
        proof {
            assert forall|k: u32| r.find_spec(k) is None by {
                lemma_absent_key(r@, k);
            }
        }
        r
    }

    fn insert(&mut self, key: u32, value: V) {
        let n = self.data.len();
        let mut pos: usize = 0;
        while pos < n && self.data[pos].0 <= key
            invariant
                n == self.data@.len(),
                pos <= n,
                forall|j: int| 0 <= j < pos ==> self.data@[j].0 <= key,
            decreases n - pos,
        {
            pos += 1;
        }
        proof {
            let s = self.data@;
            assert forall|j: int| pos <= j < s.len() implies s[j].0 > key by {
                assert(s[pos as int].0 > key);
                if j > pos {
                    assert(s[pos as int].0 <= s[j].0);
                }
            }
        }
        self.data.insert(pos, (key, value));
        proof {
            let s = old(self)@;
            let p = (key, value);
            let t = self@;
            s.insert_ensures(pos as int, p);
            assert(t == s.insert(pos as int, p));
            // the vector stays sorted
            assert forall|i: int, j: int| 0 <= i < j < t.len() implies t[i].0 <= t[j].0 by {
                if j < pos {
                    assert(t[i] == s[i] && t[j] == s[j]);
                } else if i < pos && j == pos {
                    assert(t[i] == s[i]);
                } else if i < pos && j > pos {
                    assert(t[i] == s[i] && t[j] == s[j - 1]);
                    assert(s[i].0 <= key);
                    assert(s[j - 1].0 > key);
                } else if i == pos {
                    assert(t[j] == s[j - 1]);
                    assert(s[j - 1].0 > key);
                } else {
                    assert(t[i] == s[i - 1] && t[j] == s[j - 1]);
                }
            }
            // the record multiset grows by exactly the new record
            vstd::seq_lib::to_multiset_insert(s, pos as int, p);
            // the inserted key is now present
            lemma_key_hit_props(keys_of(t), key);
            let h = key_hit(keys_of(t), key);
            assert(t[pos as int].0 == key);
            if h > pos {
                assert(keys_of(t)[pos as int] != key);
            }
            assert(h < t.len());
            // a previously absent key reports the new value
            if first_match(s, key) is None {
                lemma_first_match_insert_fresh(s, pos as int, p);
            }
            // every other key is untouched
            assert forall|k: u32| k != key implies first_match(t, k) == first_match(s, k) by {
                lemma_first_match_insert_other(s, pos as int, p, k);
            }
        }
    }

    fn find(&self, key: u32) -> (r: Option<&V>) {
        let n = self.data.len();
        let mut lo: usize = 0;
        let mut hi: usize = n;
        while lo < hi
            invariant
                self.wf(),
                n == self.data@.len(),
                lo <= hi <= n,
                forall|j: int| 0 <= j < lo ==> self.data@[j].0 < key,
                forall|j: int| hi <= j < n ==> self.data@[j].0 >= key,
            decreases hi - lo,
        {
            let mid = lo + (hi - lo) / 2;
            if self.data[mid].0 < key {
                proof {
                    assert forall|j: int| 0 <= j < mid + 1 implies self.data@[j].0 < key by {
                        if j >= lo {
                            assert(self.data@[j].0 <= self.data@[mid as int].0);
                        }
                    }
                }
                lo = mid + 1;
            } else {
                proof {
                    assert forall|j: int| mid <= j < n implies self.data@[j].0 >= key by {
                        assert(self.data@[mid as int].0 <= self.data@[j].0);
                    }
                }
                hi = mid;
            }
        }
        if lo < n && self.data[lo].0 == key {
            proof {
                assert forall|j: int| 0 <= j < lo implies self@[j].0 != key by {
                    assert(self.data@[j].0 < key);
                }
                lemma_first_match_at(self@, key, lo as int);
            }
            Some(&self.data[lo].1)
        } else {
            proof {
                assert forall|j: int| 0 <= j < self@.len() implies self@[j].0 != key by {
                    if j >= lo {
                        assert(self.data@[lo as int].0 <= self.data@[j].0);
                        assert(self.data@[lo as int].0 >= key);
                    }
                }
                lemma_absent_key(self@, key);
            }
            None
        }
    }
}

impl<V> Default for BinaryMap<u32, V> {
    /// A fresh, empty map.
    fn default() -> (r: Self)
        ensures
            r.wf(),
            forall|k: u32| r.find_spec(k) is None,
    {
        Self::empty()
    }
}

} // verus!
