//! The lane-padded variants: a key buffer whose length is always a
//! multiple of the lane width (8 or 16), scanned block by block, with the
//! unused tail slots held at the sentinel 0 so that a block compare never
//! reports a spurious hit for a non-zero query.
//!
//! Lookup walks the buffer one block at a time; within a block it takes
//! the lowest matching lane (the trailing-zero count of a vector compare
//! mask, in scalar form), and a hit at or past `next` — possible only for
//! the reserved query key 0 — is reported as absence. The guard makes the
//! observable behaviour exactly the front-to-back scan over the inserted
//! records, for every query key.

use vstd::prelude::*;

use crate::AssocMap;
use crate::linear::lemma_scan_append;
use crate::model::{first_match, lemma_absent_key, lemma_first_match_at, records_of};

verus! {

/// One block of the scan: the index of the first of the `w` lanes
/// starting at `offset` that holds `key`, or `w` when no lane matches —
/// the scalar form of a vector lane compare, mask, and trailing-zero
/// count.
fn scan_block(keys: &Vec<u32>, offset: usize, w: usize, key: u32) -> (z: usize)
    requires
        offset + w <= keys@.len(),
    ensures
        z <= w,
        z < w ==> keys@[offset + z] == key,
        forall|j: int| 0 <= j < z ==> #[trigger] keys@[offset + j] != key,
{
    let n = keys.len();
    let mut lane: usize = 0;
    while lane < w
        invariant
            lane <= w,
            n == keys@.len(),
            offset + w <= n,
            forall|j: int| 0 <= j < lane ==> #[trigger] keys@[offset + j] != key,
        decreases w - lane,
    {
        if keys[offset + lane] == key {
            return lane;
        }
        lane += 1;
    }
    w
}

/// Lane-padded structure-of-arrays map with 8-lane blocks: `keys` always
/// holds a multiple of 8 slots, `next` counts the inserted records, the
/// slots at and past `next` are padding held at 0.
pub struct SimdMap8<K, V> {
    keys: Vec<K>,
    next: usize,
    values: Vec<V>,
}

impl<T> View for SimdMap8<u32, T> {
    type V = Seq<(u32, T)>;

    /// The abstract state: the inserted records in arrival order.
    closed spec fn view(&self) -> Seq<(u32, T)> {
        records_of(self.keys@, self.values@, self.next as int)
    }
}

impl<V> AssocMap<u32, V> for SimdMap8<u32, V> {
    /// The padding invariant: the buffer length is a whole number of
    /// blocks, one value slot exists per inserted key, and every slot at
    /// or past `next` holds the sentinel 0.
    closed spec fn wf(&self) -> bool {
        &&& self.next <= self.keys@.len()
        &&& self.keys@.len() % 8 == 0
        &&& self.values@.len() == self.next
        &&& forall|j: int| self.next <= j < self.keys@.len() ==> self.keys@[j] == 0
    }

    /// Lookup is the front-to-back scan over the inserted records; the
    /// in-block order (lowest lane first) makes the earliest record win.
    open spec fn find_spec(&self, key: u32) -> Option<V> {
        first_match(self@, key)
    }

    /// Insertion appends the record to the arrival-ordered sequence.
    open spec fn inserted(pre: Self, post: Self, key: u32, value: V) -> bool {
        post@ == pre@.push((key, value))
    }

    fn empty() -> (r: Self) {
        let r = SimdMap8 { keys: Vec::new(), next: 0, values: Vec::new() };
        proof {
            assert forall|k: u32| r.find_spec(k) is None by {
                lemma_absent_key(r@, k);
            }
        }
        r
    }

    fn insert(&mut self, key: u32, value: V) {
        if self.next == self.keys.len() {
            let mut c: usize = 0;
            while c < 8
                invariant
                    c <= 8,
                    self.keys@.len() == old(self).keys@.len() + c,
                    forall|j: int|
                        0 <= j < old(self).keys@.len() ==> self.keys@[j] == old(
                            self,
                        ).keys@[j],
                    forall|j: int|
                        old(self).keys@.len() <= j < self.keys@.len() ==> self.keys@[j] == 0,
                    self.next == old(self).next,
                    self.values@ == old(self).values@,
                decreases 8 - c,
            {
                self.keys.push(0);
                c += 1;
            }
        }
        let ghost base = self.keys@;
        let n = self.next;
        self.keys[n] = key;
        self.next = n + 1;
        self.values.push(value);
        proof {
            assert(self.keys@ == base.update(n as int, key));
            assert forall|j: int| self.next <= j < self.keys@.len() implies self.keys@[j]
                == 0 by {
                assert(base[j] == 0);
            }
            assert(self@ =~= old(self)@.push((key, value)));
            lemma_scan_append(old(self)@, key, value);
        }
    }

    fn find(&self, key: u32) -> (r: Option<&V>) {
        let n = self.keys.len();
        let mut index: usize = 0;
        while index < n
            invariant
                self.wf(),
                n == self.keys@.len(),
                index <= n,
                index % 8 == 0,
                forall|j: int| 0 <= j < index ==> self.keys@[j] != key,
            decreases n - index,
        {
            proof {
                assert((n - index) % 8 == 0);
            }
            let z = scan_block(&self.keys, index, 8, key);
            if z < 8 {
                let hit = index + z;
                if hit < self.values.len() {
                    proof {
                        assert(self@[hit as int].0 == key);
                        assert forall|j: int| 0 <= j < hit implies self@[j].0 != key by {
                            if j >= index {
                                assert(self.keys@[index + (j - index)] != key);
                            }
                            assert(self.keys@[j] != key);
                        }
                        lemma_first_match_at(self@, key, hit as int);
                    }
                    return Some(&self.values[hit]);
                } else {
                    proof {
                        assert forall|j: int| 0 <= j < self@.len() implies self@[j].0
                            != key by {
                            if j >= index {
                                assert(self.keys@[index + (j - index)] != key);
                            }
                            assert(self.keys@[j] != key);
                        }
                        lemma_absent_key(self@, key);
                    }
                    return None;
                }
            }
            proof {
                assert forall|j: int| index <= j < index + 8 implies self.keys@[j] != key by {
                    assert(self.keys@[index + (j - index)] != key);
                }
            }
            index += 8;
        }
        proof {
            assert forall|j: int| 0 <= j < self@.len() implies self@[j].0 != key by {
                assert(self.keys@[j] != key);
            }
            lemma_absent_key(self@, key);
        }
        None
    }
}

/// Lane-padded structure-of-arrays map with 16-lane blocks; identical to
/// [`SimdMap8`] except for the block width.
pub struct SimdMap16<K, V> {
    keys: Vec<K>,
    next: usize,
    values: Vec<V>,
}

impl<T> View for SimdMap16<u32, T> {
    type V = Seq<(u32, T)>;

    /// The abstract state: the inserted records in arrival order.
    closed spec fn view(&self) -> Seq<(u32, T)> {
        records_of(self.keys@, self.values@, self.next as int)
    }
}

impl<V> AssocMap<u32, V> for SimdMap16<u32, V> {
    /// The padding invariant, with 16-slot blocks.
    closed spec fn wf(&self) -> bool {
        &&& self.next <= self.keys@.len()
        &&& self.keys@.len() % 16 == 0
        &&& self.values@.len() == self.next
        &&& forall|j: int| self.next <= j < self.keys@.len() ==> self.keys@[j] == 0
    }

    /// Lookup is the front-to-back scan over the inserted records; the
    /// in-block order (lowest lane first) makes the earliest record win.
    open spec fn find_spec(&self, key: u32) -> Option<V> {
        first_match(self@, key)
    }

    /// Insertion appends the record to the arrival-ordered sequence.
    open spec fn inserted(pre: Self, post: Self, key: u32, value: V) -> bool {
        post@ == pre@.push((key, value))
    }

    fn empty() -> (r: Self) {
        let r = SimdMap16 { keys: Vec::new(), next: 0, values: Vec::new() };
        proof {
            assert forall|k: u32| r.find_spec(k) is None by {
                lemma_absent_key(r@, k);
            }
        }
        r
    }

    fn insert(&mut self, key: u32, value: V) {
        if self.next == self.keys.len() {
            let mut c: usize = 0;
            while c < 16
                invariant
                    c <= 16,
                    self.keys@.len() == old(self).keys@.len() + c,
                    forall|j: int|
                        0 <= j < old(self).keys@.len() ==> self.keys@[j] == old(
                            self,
                        ).keys@[j],
                    forall|j: int|
                        old(self).keys@.len() <= j < self.keys@.len() ==> self.keys@[j] == 0,
                    self.next == old(self).next,
                    self.values@ == old(self).values@,
                decreases 16 - c,
            {
                self.keys.push(0);
                c += 1;
            }
        }
        let ghost base = self.keys@;
        let n = self.next;
        self.keys[n] = key;
        self.next = n + 1;
        self.values.push(value);
        proof {
            assert(self.keys@ == base.update(n as int, key));
            assert forall|j: int| self.next <= j < self.keys@.len() implies self.keys@[j]
                == 0 by {
                assert(base[j] == 0);
            }
            assert(self@ =~= old(self)@.push((key, value)));
            lemma_scan_append(old(self)@, key, value);
        }
    }

    fn find(&self, key: u32) -> (r: Option<&V>) {
        let n = self.keys.len();
        let mut index: usize = 0;
        while index < n
            invariant
                self.wf(),
                n == self.keys@.len(),
                index <= n,
                index % 16 == 0,
                forall|j: int| 0 <= j < index ==> self.keys@[j] != key,
            decreases n - index,
        {
            proof {
                assert((n - index) % 16 == 0);
            }
            let z = scan_block(&self.keys, index, 16, key);
            if z < 16 {
                let hit = index + z;
                if hit < self.values.len() {
                    proof {
                        assert(self@[hit as int].0 == key);
                        assert forall|j: int| 0 <= j < hit implies self@[j].0 != key by {
                            if j >= index {
                                assert(self.keys@[index + (j - index)] != key);
                            }
                            assert(self.keys@[j] != key);
                        }
                        lemma_first_match_at(self@, key, hit as int);
                    }
                    return Some(&self.values[hit]);
                } else {
                    proof {
                        assert forall|j: int| 0 <= j < self@.len() implies self@[j].0
                            != key by {
                            if j >= index {
                                assert(self.keys@[index + (j - index)] != key);
                            }
                            assert(self.keys@[j] != key);
                        }
                        lemma_absent_key(self@, key);
                    }
                    return None;
                }
            }
            proof {
                assert forall|j: int| index <= j < index + 16 implies self.keys@[j] != key by {
                    assert(self.keys@[index + (j - index)] != key);
                }
            }
            index += 16;
        }
        proof {
            assert forall|j: int| 0 <= j < self@.len() implies self@[j].0 != key by {
                assert(self.keys@[j] != key);
            }
            lemma_absent_key(self@, key);
        }
        None
    }
}

impl<V> Default for SimdMap8<u32, V> {
    /// A fresh, empty map.
    fn default() -> (r: Self)
        ensures
            r.wf(),
            forall|k: u32| r.find_spec(k) is None,
    {
        Self::empty()
    }
}

impl<V> Default for SimdMap16<u32, V> {
    /// A fresh, empty map.
    fn default() -> (r: Self)
        ensures
            r.wf(),
            forall|k: u32| r.find_spec(k) is None,
    {
        Self::empty()
    }
}

} // verus!
