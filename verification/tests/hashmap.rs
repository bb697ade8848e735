use early_allocator::hashmap::{AxHashMap, SimpleHasherBuilder};

#[test]
fn new_map_is_empty() {
    let m: AxHashMap<i32> = AxHashMap::new();
    assert_eq!(m.len(), 0);
    assert!(m.is_empty());
    assert!(m.get(7).is_none());
}

#[test]
fn with_capacity_map_is_empty() {
    let m: AxHashMap<i32> = AxHashMap::with_capacity(100);
    assert_eq!(m.len(), 0);
    assert!(m.is_empty());
}

#[test]
fn insert_then_get() {
    let mut m: AxHashMap<i32> = AxHashMap::new();
    assert_eq!(m.insert(42, 10), None);
    assert_eq!(m.len(), 1);
    assert!(!m.is_empty());
    assert_eq!(m.get(42), Some(&10));
    assert!(m.get(43).is_none());
}

#[test]
fn insert_overwrites_and_returns_old() {
    let mut m: AxHashMap<&str> = AxHashMap::new();
    assert_eq!(m.insert(1, "one"), None);
    assert_eq!(m.insert(1, "uno"), Some("one"));
    assert_eq!(m.len(), 1);
    assert_eq!(m.get(1), Some(&"uno"));
}

#[test]
fn remove_unbinds() {
    let mut m: AxHashMap<i32> = AxHashMap::new();
    m.insert(5, 50);
    m.insert(6, 60);
    assert_eq!(m.remove(5), Some(50));
    assert_eq!(m.len(), 1);
    assert!(m.get(5).is_none());
    assert_eq!(m.get(6), Some(&60));
    assert_eq!(m.remove(5), None);
    assert_eq!(m.len(), 1);
}

#[test]
fn many_keys_collide_into_buckets() {
    let mut m: AxHashMap<u64> = AxHashMap::with_capacity(4);
    for k in 0..200u64 {
        assert_eq!(m.insert(k, k * k), None);
    }
    assert_eq!(m.len(), 200);
    for k in 0..200u64 {
        assert_eq!(m.get(k), Some(&(k * k)));
    }
    for k in (0..200u64).rev() {
        assert_eq!(m.remove(k), Some(k * k));
    }
    assert!(m.is_empty());
}

#[test]
fn iter_visits_every_entry_once() {
    let mut m: AxHashMap<i32> = AxHashMap::new();
    m.insert(1, 10);
    m.insert(2, 20);
    m.insert(3, 30);
    let mut seen: Vec<(u64, i32)> = Vec::new();
    let mut it = m.iter();
    while let Some((k, v)) = it.next() {
        seen.push((k, *v));
    }
    assert_eq!(seen.len(), 3);
    seen.sort();
    assert_eq!(seen, vec![(1, 10), (2, 20), (3, 30)]);
}

#[test]
fn size_hint_bounds_by_entry_count() {
    let mut m: AxHashMap<i32> = AxHashMap::new();
    m.insert(1, 1);
    m.insert(2, 2);
    let it = m.iter();
    assert_eq!(it.size_hint(), (0, Some(2)));
}

#[test]
fn hasher_folds_bytes_exactly() {
    let builder = SimpleHasherBuilder::new(0);
    let mut h = builder.build_hasher();
    h.write(&[1, 2, 3]);
    // ((0 * 31 + 1) * 31 + 2) * 31 + 3
    assert_eq!(h.finish(), 1026);
}

#[test]
fn hasher_with_empty_input_returns_seed() {
    let builder = SimpleHasherBuilder::new(77);
    let mut h = builder.build_hasher();
    h.write(&[]);
    assert_eq!(h.finish(), 77);
}

#[test]
fn hasher_wraps_at_word_width() {
    let builder = SimpleHasherBuilder::new(u64::MAX);
    let mut h = builder.build_hasher();
    h.write(&[5]);
    assert_eq!(h.finish(), u64::MAX.wrapping_mul(31).wrapping_add(5));
    assert_eq!(h.finish(), 18446744073709551590);
}
