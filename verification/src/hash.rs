//! Hash baseline: the standard open-addressing hash map driven by
//! fxhash's fast integer hasher (multiply-and-xor-shift over a 64-bit
//! constant). Present to locate the crossover point where hashing beats
//! scanning; an equal-key insert replaces the stored value.
//!
//! The standard library's specifications for hash-map operations are
//! conditional on the build hasher being known valid, which is axiomatised
//! only for the default `RandomState`. The two operations used here are
//! therefore stated as trusted wrappers: `FxBuildHasher`
//! (`BuildHasherDefault<FxHasher>`) is a deterministic, consistent build
//! hasher, so the documented hash-map semantics apply to it unchanged.

use vstd::prelude::*;

use crate::AssocMap;

verus! {

/// fxhash's hasher state, opaque to verification.
#[verifier::external_type_specification]
#[verifier::external_body]
pub struct ExFxHasher(fxhash::FxHasher);

/// The standard wrapper that builds a default-initialised hasher per use.
#[verifier::external_type_specification]
#[verifier::external_body]
#[verifier::reject_recursive_types(H)]
pub struct ExBuildHasherDefault<H>(std::hash::BuildHasherDefault<H>);

/// The standard hash map with fxhash's build hasher, used as the hash
/// baseline.
pub type HashMap<K, V> = std::collections::HashMap<K, V, fxhash::FxBuildHasher>;

/// Relies on std's `HashMap::insert`: afterwards the map holds
/// `key -> value` and every other key is unchanged. `FxBuildHasher` is a
/// consistent `BuildHasher`, so the documented semantics apply.
#[verifier::external_body]
fn fx_insert<V>(m: &mut HashMap<u32, V>, key: u32, value: V)
    ensures
        final(m)@ == old(m)@.insert(key, value),
{
    m.insert(key, value);
}

/// Relies on std's `HashMap::get`: a reference to the value stored for
/// `key`, or `None` when the map does not contain the key.
#[verifier::external_body]
fn fx_get<'a, V>(m: &'a HashMap<u32, V>, key: u32) -> (r: Option<&'a V>)
    ensures
        match r {
            Some(v) => m@.contains_key(key) && *v == m@[key],
            None => !m@.contains_key(key),
        },
{
    m.get(&key)
}

impl<V> AssocMap<u32, V> for HashMap<u32, V> {
    open spec fn wf(&self) -> bool {
        true
    }

    /// Keyed lookup in the abstract map: the most recently inserted value
    /// for the key, since an equal-key insert replaces.
    open spec fn find_spec(&self, key: u32) -> Option<V> {
        if self@.contains_key(key) {
            Some(self@[key])
        } else {
            None
        }
    }

    /// Insertion overwrites: the abstract map gains or replaces the
    /// binding for the key.
    open spec fn inserted(pre: Self, post: Self, key: u32, value: V) -> bool {
        post@ == pre@.insert(key, value)
    }

    fn empty() -> (r: Self) {
        std::collections::HashMap::default()
    }

    fn insert(&mut self, key: u32, value: V) {
        fx_insert(self, key, value);
    }

    fn find(&self, key: u32) -> (r: Option<&V>) {
        fx_get(self, key)
    }
}

} // verus!
