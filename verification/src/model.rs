//! The mathematical model shared by the map variants: the index of the
//! first occurrence of a key in a sequence, the front-to-back scan result
//! over a record sequence, and the laws the variants' contracts rest on.

use vstd::prelude::*;

verus! {

/// Index of the first occurrence of `key` in `s`, or `s.len()` when `s`
/// holds no occurrence.
pub open spec fn key_hit<K>(s: Seq<K>, key: K) -> int
    decreases s.len(),
{
    if s.len() == 0 {
        0
    } else if s[0] == key {
        0
    } else {
        1 + key_hit(s.drop_first(), key)
    }
}

/// `key_hit` lands on the first occurrence: it is in range, it is a hit
/// when one exists, and no earlier slot holds the key.
pub proof fn lemma_key_hit_props<K>(s: Seq<K>, key: K)
    ensures
        0 <= key_hit(s, key) <= s.len(),
        key_hit(s, key) < s.len() ==> s[key_hit(s, key)] == key,
        forall|j: int| 0 <= j < key_hit(s, key) ==> s[j] != key,
    decreases s.len(),
{
    if s.len() != 0 && s[0] != key {
        lemma_key_hit_props(s.drop_first(), key);
        assert forall|j: int| 0 <= j < key_hit(s, key) implies s[j] != key by {
            if j > 0 {
                assert(s.drop_first()[j - 1] == s[j]);
            }
        }
    }
}

/// An index that is a hit with no earlier hit pins `key_hit` down.
pub proof fn lemma_key_hit_at<K>(s: Seq<K>, key: K, i: int)
    requires
        0 <= i < s.len(),
        s[i] == key,
        forall|j: int| 0 <= j < i ==> s[j] != key,
    ensures
        key_hit(s, key) == i,
{
    lemma_key_hit_props(s, key);
    let h = key_hit(s, key);
    if h < i {
        assert(s[h] != key);
    }
    if h > i {
        assert(s[i] != key);
    }
}

/// A sequence with no occurrence of `key` sends `key_hit` past the end.
pub proof fn lemma_key_hit_absent<K>(s: Seq<K>, key: K)
    requires
        forall|j: int| 0 <= j < s.len() ==> s[j] != key,
    ensures
        key_hit(s, key) == s.len(),
{
    lemma_key_hit_props(s, key);
    let h = key_hit(s, key);
    if h < s.len() {
        assert(s[h] != key);
    }
}

/// The key of each record, in record order.
pub open spec fn keys_of<K, V>(s: Seq<(K, V)>) -> Seq<K> {
    s.map_values(|p: (K, V)| p.0)
}

/// What a front-to-back scan of the record sequence `s` returns for `key`:
/// the value of the earliest record carrying the key, or absence.
pub open spec fn first_match<K, V>(s: Seq<(K, V)>, key: K) -> Option<V> {
    let i = key_hit(keys_of(s), key);
    if i < s.len() {
        Some(s[i].1)
    } else {
        None
    }
}

/// A key that no record carries is reported absent.
pub proof fn lemma_absent_key<K, V>(s: Seq<(K, V)>, key: K)
    requires
        forall|i: int| 0 <= i < s.len() ==> s[i].0 != key,
    ensures
        first_match(s, key) is None,
{
    lemma_key_hit_absent(keys_of(s), key);
}

/// The record at index `i` is the earliest one carrying `key`: the scan
/// returns exactly its value.
pub proof fn lemma_first_match_at<K, V>(s: Seq<(K, V)>, key: K, i: int)
    requires
        0 <= i < s.len(),
        s[i].0 == key,
        forall|j: int| 0 <= j < i ==> s[j].0 != key,
    ensures
        first_match(s, key) == Some(s[i].1),
{
    assert forall|j: int| 0 <= j < i implies keys_of(s)[j] != key by {
        assert(s[j].0 != key);
    }
    lemma_key_hit_at(keys_of(s), key, i);
}

/// When the same key was recorded at two positions `i < j`, the scan
/// returns the value stored at `i`: the earliest record wins.
pub proof fn lemma_first_record_wins<K, V>(s: Seq<(K, V)>, key: K, i: int, j: int)
    requires
        0 <= i < j < s.len(),
        s[i].0 == key,
        s[j].0 == key,
        forall|l: int| 0 <= l < i ==> s[l].0 != key,
    ensures
        first_match(s, key) == Some(s[i].1),
{
    lemma_first_match_at(s, key, i);
}

/// Inserting a record carrying a different key, at any position, leaves
/// the scan result for `key` unchanged.
pub proof fn lemma_first_match_insert_other<K, V>(s: Seq<(K, V)>, pos: int, p: (K, V), key: K)
    requires
        0 <= pos <= s.len(),
        p.0 != key,
    ensures
        first_match(s.insert(pos, p), key) == first_match(s, key),
{
    let t = s.insert(pos, p);
    s.insert_ensures(pos, p);
    lemma_key_hit_props(keys_of(s), key);
    let i = key_hit(keys_of(s), key);
    if i < s.len() && i < pos {
        assert(t[i].0 == key);
        assert forall|j: int| 0 <= j < i implies t[j].0 != key by {
            assert(t[j] == s[j]);
            assert(keys_of(s)[j] != key);
        }
        lemma_first_match_at(t, key, i);
        assert(first_match(s, key) == Some(s[i].1));
    } else if i < s.len() {
        assert(t[i + 1] == s[i]);
        assert(t[i + 1].0 == key);
        assert forall|j: int| 0 <= j < i + 1 implies t[j].0 != key by {
            if j < pos {
                assert(t[j] == s[j]);
                assert(keys_of(s)[j] != key);
            } else if j == pos {
                assert(t[j] == p);
            } else {
                assert(t[j] == s[j - 1]);
                assert(keys_of(s)[j - 1] != key);
            }
        }
        lemma_first_match_at(t, key, i + 1);
        assert(first_match(s, key) == Some(s[i].1));
    } else {
        assert forall|j: int| 0 <= j < t.len() implies t[j].0 != key by {
            if j < pos {
                assert(t[j] == s[j]);
                assert(keys_of(s)[j] != key);
            } else if j == pos {
                assert(t[j] == p);
            } else {
                assert(t[j] == s[j - 1]);
                assert(keys_of(s)[j - 1] != key);
            }
        }
        lemma_absent_key(t, key);
    }
}

/// Inserting a record whose key was absent makes that record the match.
pub proof fn lemma_first_match_insert_fresh<K, V>(s: Seq<(K, V)>, pos: int, p: (K, V))
    requires
        0 <= pos <= s.len(),
        first_match(s, p.0) is None,
    ensures
        first_match(s.insert(pos, p), p.0) == Some(p.1),
{
    let t = s.insert(pos, p);
    s.insert_ensures(pos, p);
    lemma_key_hit_props(keys_of(s), p.0);
    assert(t[pos] == p);
    assert forall|j: int| 0 <= j < pos implies t[j].0 != p.0 by {
        assert(t[j] == s[j]);
        assert(keys_of(s)[j] != p.0);
    }
    lemma_first_match_at(t, p.0, pos);
}

/// Two record sequences holding the same records, in whatever order, agree
/// on which keys are present.
pub proof fn lemma_presence_permutation<K, V>(s1: Seq<(K, V)>, s2: Seq<(K, V)>, key: K)
    requires
        s1.to_multiset() == s2.to_multiset(),
    ensures
        first_match(s1, key) is Some <==> first_match(s2, key) is Some,
{
    if first_match(s1, key) is Some {
        lemma_presence_permutation_one(s1, s2, key);
    }
    if first_match(s2, key) is Some {
        lemma_presence_permutation_one(s2, s1, key);
    }
}

proof fn lemma_presence_permutation_one<K, V>(s1: Seq<(K, V)>, s2: Seq<(K, V)>, key: K)
    requires
        s1.to_multiset() == s2.to_multiset(),
        first_match(s1, key) is Some,
    ensures
        first_match(s2, key) is Some,
{
    lemma_key_hit_props(keys_of(s1), key);
    let i = key_hit(keys_of(s1), key);
    assert(s1[i].0 == key);
    let p = s1[i];
    assert(s1.contains(p));
    vstd::seq_lib::to_multiset_contains(s1, p);
    vstd::seq_lib::to_multiset_contains(s2, p);
    assert(s2.contains(p));
    let j = choose|j: int| 0 <= j < s2.len() && s2[j] == p;
    lemma_key_hit_props(keys_of(s2), key);
    let h = key_hit(keys_of(s2), key);
    if h >= s2.len() {
        assert(keys_of(s2)[j] != key);
    }
}

/// Presence depends on the keys alone: two record sequences with the same
/// key in every position, whatever the value payloads, agree on which keys
/// are present.
pub proof fn lemma_payload_independence<K, V1, V2>(s1: Seq<(K, V1)>, s2: Seq<(K, V2)>, key: K)
    requires
        s1.len() == s2.len(),
        forall|i: int| 0 <= i < s1.len() ==> s1[i].0 == s2[i].0,
    ensures
        first_match(s1, key) is Some <==> first_match(s2, key) is Some,
{
    assert(keys_of(s1) =~= keys_of(s2));
}

/// What lookup over a lane-padded key buffer returns: the value at the
/// first buffer slot holding `key`, guarded so that a hit in the padding
/// (at or past `next`) is reported as absence.
pub open spec fn padded_find<V>(keys: Seq<u32>, values: Seq<V>, next: int, key: u32) -> Option<
    V,
> {
    let i = key_hit(keys, key);
    if i < next {
        Some(values[i])
    } else {
        None
    }
}

/// The genuinely inserted records of a lane-padded layout: the first
/// `next` slots of the key buffer, re-zipped with their values.
pub open spec fn records_of<V>(keys: Seq<u32>, values: Seq<V>, next: int) -> Seq<(u32, V)> {
    Seq::new(next as nat, |i: int| (keys[i], values[i]))
}

/// The guarded block-scan semantics over the padded buffer coincide, for
/// every query key, with the front-to-back scan over the genuinely
/// inserted records: the padding never changes a lookup's answer.
pub proof fn lemma_padded_scan_matches_records<V>(
    keys: Seq<u32>,
    values: Seq<V>,
    next: int,
    key: u32,
)
    requires
        0 <= next <= keys.len(),
        next <= values.len(),
        forall|j: int| next <= j < keys.len() ==> keys[j] == 0,
    ensures
        padded_find(keys, values, next, key) == first_match(
            records_of(keys, values, next),
            key,
        ),
{
    lemma_key_hit_props(keys, key);
    let h = key_hit(keys, key);
    let s = records_of(keys, values, next);
    if h < next {
        assert(s[h].0 == key);
        assert forall|j: int| 0 <= j < h implies s[j].0 != key by {
            assert(s[j].0 == keys[j]);
        }
        lemma_first_match_at(s, key, h);
    } else {
        assert forall|j: int| 0 <= j < s.len() implies s[j].0 != key by {
            assert(s[j].0 == keys[j]);
        }
        lemma_absent_key(s, key);
    }
}

/// For a non-zero key the all-zero padding can never supply the hit: a
/// present result always denotes a genuinely inserted slot below `next`.
pub proof fn lemma_padding_never_matches<V>(keys: Seq<u32>, values: Seq<V>, next: int, key: u32)
    requires
        key != 0,
        0 <= next <= keys.len(),
        forall|j: int| next <= j < keys.len() ==> keys[j] == 0,
    ensures
        padded_find(keys, values, next, key) is Some <==> exists|i: int|
            0 <= i < next && keys[i] == key,
{
    lemma_key_hit_props(keys, key);
    let h = key_hit(keys, key);
    if exists|i: int| 0 <= i < next && keys[i] == key {
        let i = choose|i: int| 0 <= i < next && keys[i] == key;
        if h > i {
            assert(keys[i] != key);
        }
    }
}

/// With the buffer filled to an exact multiple of the lane width `w`,
/// every inserted key is still found, with its earliest recorded value:
/// the scan has no off-by-one at block edges.
pub proof fn lemma_block_boundary<V>(
    keys: Seq<u32>,
    values: Seq<V>,
    next: int,
    w: int,
    key: u32,
    i: int,
)
    requires
        w > 0,
        next % w == 0,
        0 <= next <= keys.len(),
        values.len() == next,
        0 <= i < next,
        keys[i] == key,
        forall|j: int| 0 <= j < i ==> keys[j] != key,
    ensures
        padded_find(keys, values, next, key) == Some(values[i]),
{
    lemma_key_hit_at(keys, key, i);
}

} // verus!
