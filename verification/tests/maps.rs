use comparison_of_maps::AssocMap;
use comparison_of_maps::BTreeMap;
use comparison_of_maps::BinaryMap;
use comparison_of_maps::HashMap;
use comparison_of_maps::KvMap;
use comparison_of_maps::LinearMap;
use comparison_of_maps::SimdMap16;
use comparison_of_maps::SimdMap8;

fn run<M: AssocMap<u32, i32> + Default>() {
    let mut map = M::default();
    assert_eq!(map.find(8), None);

    map.insert(5, 42);
    map.insert(1, 43);
    map.insert(7, 44);

    assert_eq!(map.find(5), Some(&42));
    assert_eq!(map.find(1), Some(&43));
    assert_eq!(map.find(7), Some(&44));
    assert_eq!(map.find(8), None);
}

#[test]
fn linear_map() {
    run::<LinearMap<_, _>>();
}

#[test]
fn binary_map() {
    run::<BinaryMap<_, _>>();
}

#[test]
fn kv_map() {
    run::<KvMap<_, _>>();
}

#[test]
fn simd_map() {
    run::<SimdMap16<_, _>>();
    run::<SimdMap8<_, _>>();
}

#[test]
fn hash_map() {
    run::<HashMap<_, _>>();
}

#[test]
fn btree_map() {
    run::<BTreeMap<_, _>>();
}

// Block-edge scenario for the 8-lane variant: the buffer holds exactly one
// full block, so the last inserted key sits in the final lane.
#[test]
fn simd8_block_edge() {
    let mut map: SimdMap8<u32, u32> = SimdMap8::default();
    for key in 1..=8u32 {
        map.insert(key, key);
    }
    assert_eq!(map.find(8), Some(&8));
    assert_eq!(map.find(1), Some(&1));
    assert_eq!(map.find(9), None);
}

// Second-block scenario for the 16-lane variant: key 17 lies in the second
// block at intra-block offset 0, key 16 in the last slot of the first.
#[test]
fn simd16_second_block() {
    let mut map: SimdMap16<u32, u32> = SimdMap16::default();
    for key in 1..=17u32 {
        map.insert(key, key);
    }
    assert_eq!(map.find(17), Some(&17));
    assert_eq!(map.find(16), Some(&16));
}

// The sorted variant keeps every record across its re-sorting inserts.
#[test]
fn binary_map_insertion_order() {
    let mut map: BinaryMap<u32, char> = BinaryMap::default();
    map.insert(7, 'a');
    map.insert(1, 'b');
    map.insert(5, 'c');
    assert_eq!(map.find(1), Some(&'b'));
    assert_eq!(map.find(5), Some(&'c'));
    assert_eq!(map.find(7), Some(&'a'));
}

// The hash baseline replaces on an equal-key insert, diverging from the
// scan variants, which keep returning the first record.
#[test]
fn hash_map_replaces() {
    let mut map: HashMap<u32, i32> = HashMap::default();
    map.insert(3, 10);
    map.insert(3, 20);
    assert_eq!(map.find(3), Some(&20));
}

#[test]
fn btree_map_replaces() {
    let mut map: BTreeMap<u32, i32> = BTreeMap::default();
    map.insert(3, 10);
    map.insert(3, 20);
    assert_eq!(map.find(3), Some(&20));
}

// The scan variants return the earliest record when a key was inserted
// twice.
#[test]
fn scan_variants_first_record_wins() {
    let mut linear: LinearMap<u32, i32> = LinearMap::default();
    linear.insert(5, 1);
    linear.insert(5, 2);
    assert_eq!(linear.find(5), Some(&1));

    let mut kv: KvMap<u32, i32> = KvMap::default();
    kv.insert(5, 1);
    kv.insert(5, 2);
    assert_eq!(kv.find(5), Some(&1));

    let mut s8: SimdMap8<u32, i32> = SimdMap8::default();
    s8.insert(5, 1);
    s8.insert(5, 2);
    assert_eq!(s8.find(5), Some(&1));

    let mut s16: SimdMap16<u32, i32> = SimdMap16::default();
    s16.insert(5, 1);
    s16.insert(5, 2);
    assert_eq!(s16.find(5), Some(&1));
}

// Non-zero queries never hit the zero-valued padding slots, and a query
// for the reserved key 0 on a map of non-zero keys is reported absent.
#[test]
fn simd_padding_does_not_match() {
    let mut s8: SimdMap8<u32, i32> = SimdMap8::default();
    s8.insert(1, 11);
    s8.insert(2, 12);
    s8.insert(3, 13);
    assert_eq!(s8.find(0), None);
    assert_eq!(s8.find(4), None);

    let mut s16: SimdMap16<u32, i32> = SimdMap16::default();
    s16.insert(9, 19);
    assert_eq!(s16.find(0), None);
    assert_eq!(s16.find(10), None);
}

// Presence is independent of the insertion order of distinct keys.
#[test]
fn presence_order_independent() {
    let keys = [4u32, 9, 2, 31, 16];
    let permuted = [16u32, 2, 31, 9, 4];

    let mut a: LinearMap<u32, u32> = LinearMap::default();
    for &k in keys.iter() {
        a.insert(k, k);
    }
    let mut b: LinearMap<u32, u32> = LinearMap::default();
    for &k in permuted.iter() {
        b.insert(k, k);
    }
    for probe in 0..40u32 {
        assert_eq!(a.find(probe).is_some(), b.find(probe).is_some());
    }
}

// A run of finds between two insertions keeps returning pointwise-equal
// results: lookup does not mutate observable state.
#[test]
fn reads_are_stable() {
    let mut map: KvMap<u32, i32> = KvMap::default();
    map.insert(2, 20);
    map.insert(6, 60);
    let first: Vec<Option<i32>> = (0..10u32).map(|k| map.find(k).copied()).collect();
    let second: Vec<Option<i32>> = (0..10u32).map(|k| map.find(k).copied()).collect();
    assert_eq!(first, second);
    map.insert(7, 70);
    assert_eq!(map.find(2), Some(&20));
    assert_eq!(map.find(6), Some(&60));
}

// Swapping the value payload for a wider fixed-size one with the same
// leading bit pattern does not change which keys are present.
#[test]
fn payload_size_independent() {
    let keys = [3u32, 8, 12];

    let mut small: SimdMap8<u32, u64> = SimdMap8::default();
    let mut large: SimdMap8<u32, [u64; 4]> = SimdMap8::default();
    for &k in keys.iter() {
        small.insert(k, k as u64);
        large.insert(k, [k as u64, 0, 0, 0]);
    }
    for probe in 0..16u32 {
        assert_eq!(small.find(probe).is_some(), large.find(probe).is_some());
        if let (Some(s), Some(l)) = (small.find(probe), large.find(probe)) {
            assert_eq!(*s, l[0]);
        }
    }
}

// The trait-level constructor agrees with Default: both give a map that
// reports every probe absent.
#[test]
fn empty_constructor_is_empty() {
    let linear: LinearMap<u32, i32> = AssocMap::empty();
    let s8: SimdMap8<u32, i32> = AssocMap::empty();
    let hash: HashMap<u32, i32> = AssocMap::empty();
    for probe in [0u32, 5, 77] {
        assert_eq!(linear.find(probe), None);
        assert_eq!(s8.find(probe), None);
        assert_eq!(hash.find(probe), None);
    }
}

// An empty map of every variant reports every probe absent.
#[test]
fn empty_maps_are_empty() {
    let linear: LinearMap<u32, i32> = LinearMap::default();
    let kv: KvMap<u32, i32> = KvMap::default();
    let binary: BinaryMap<u32, i32> = BinaryMap::default();
    let s8: SimdMap8<u32, i32> = SimdMap8::default();
    let s16: SimdMap16<u32, i32> = SimdMap16::default();
    let hash: HashMap<u32, i32> = HashMap::default();
    let btree: BTreeMap<u32, i32> = BTreeMap::default();
    for probe in [0u32, 1, 8, 1000, u32::MAX] {
        assert_eq!(linear.find(probe), None);
        assert_eq!(kv.find(probe), None);
        assert_eq!(binary.find(probe), None);
        assert_eq!(s8.find(probe), None);
        assert_eq!(s16.find(probe), None);
        assert_eq!(hash.find(probe), None);
        assert_eq!(btree.find(probe), None);
    }
}

// A larger fill across several blocks, every key found with its value.
#[test]
fn simd_many_blocks() {
    let mut s8: SimdMap8<u32, u32> = SimdMap8::default();
    let mut s16: SimdMap16<u32, u32> = SimdMap16::default();
    for key in 1..=50u32 {
        s8.insert(key, key + 100);
        s16.insert(key, key + 100);
    }
    for key in 1..=50u32 {
        assert_eq!(s8.find(key), Some(&(key + 100)));
        assert_eq!(s16.find(key), Some(&(key + 100)));
    }
    assert_eq!(s8.find(51), None);
    assert_eq!(s16.find(51), None);
}
