//! Small-map lookup strategies: owning, in-memory associative containers
//! over 32-bit keys, built for point lookups at small element counts.
//!
//! Every variant exposes the same two-operation capability, [`AssocMap`]:
//! an infallible `insert` and a read-only `find`. The variants differ in
//! layout — a flat record vector, a structure-of-arrays split, a sorted
//! vector with binary search, lane-padded buffers scanned block by block,
//! and two standard-collection baselines.

use vstd::prelude::*;

pub mod binary;
pub mod btree;
pub mod hash;
pub mod linear;
pub mod model;
pub mod simd;

pub use binary::BinaryMap;
pub use btree::BTreeMap;
pub use hash::HashMap;
pub use linear::KvMap;
pub use linear::LinearMap;
pub use simd::SimdMap16;
pub use simd::SimdMap8;

verus! {

/// The capability every variant implements: an owning, single-threaded
/// associative container with append-style insertion and point lookup.
///
/// `wf` is the variant's structural invariant, established by [`AssocMap::empty`]
/// and preserved by [`AssocMap::insert`]. `find_spec` says, as a pure function of
/// the current state, what [`AssocMap::find`] returns for every key; each variant
/// defines it over its own layout, so the lookup order (first-inserted wins
/// for the scanning variants, replacement for the keyed baselines) is pinned
/// by the implementing type.
pub trait AssocMap<K, V>: Sized {
    /// The variant's structural invariant.
    spec fn wf(&self) -> bool;

    /// The value `find` reports for `key`, as a function of the state.
    spec fn find_spec(&self, key: K) -> Option<V>;

    /// How one insertion transforms the state: each variant pins its own
    /// evolution here (the scanning variants append the record to their
    /// abstract record sequence, the sorted variant re-establishes order
    /// over the enlarged record multiset, the keyed baselines overwrite).
    spec fn inserted(pre: Self, post: Self, key: K, value: V) -> bool;

    /// A fresh map: well formed, and every lookup is absent.
    fn empty() -> (r: Self)
        ensures
            r.wf(),
            forall|k: K| r.find_spec(k) is None,
    ;

    /// Record the pair `(key, value)`. Infallible: afterwards the key is
    /// present; a previously absent key now reports exactly `value`; every
    /// other key reports what it reported before.
    fn insert(&mut self, key: K, value: V)
        requires
            old(self).wf(),
        ensures
            final(self).wf(),
            Self::inserted(*old(self), *final(self), key, value),
            final(self).find_spec(key) is Some,
            old(self).find_spec(key) is None ==> final(self).find_spec(key) == Some(value),
            forall|k: K| k != key ==> final(self).find_spec(k) == old(self).find_spec(k),
    ;

    /// Borrow the value designated by `find_spec`, or report absence.
    /// Takes a shared borrow: the state is not observably changed.
    fn find(&self, key: K) -> (r: Option<&V>)
        requires
            self.wf(),
        ensures
            match r {
                Some(v) => self.find_spec(key) == Some(*v),
                None => self.find_spec(key) is None,
            },
    ;
}

} // verus!
