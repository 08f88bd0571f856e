use hashtable::HashTable;

#[test]
fn distinct_keys_count_each_insert() {
    let mut ht = HashTable::<i32, i32>::new();
    assert_eq!(ht.len(), 0);
    for (n, k) in [-7, 0, 3, 1000, i32::MAX, i32::MIN].iter().enumerate() {
        ht.insert(*k, 1);
        assert_eq!(ht.len(), n + 1);
    }
}

#[test]
fn round_trip_survives_later_inserts() {
    let mut ht = HashTable::<i32, i32>::new();
    ht.insert(42, 420);
    for k in 0..40 {
        if k != 42 {
            ht.insert(k, -k);
        }
    }
    assert_eq!(ht.get(&42), Some(&420));
    assert_eq!(ht[&42], 420);
    for k in 0..40 {
        assert_eq!(ht.get(&k), Some(&-k));
        assert_eq!(ht[&k], -k);
    }
    assert_eq!(ht.len(), 41);
}

#[test]
fn second_insert_overwrites_value() {
    let mut ht = HashTable::<i32, i32>::new();
    ht.insert(9, 1);
    assert_eq!(ht.len(), 1);
    ht.insert(9, 2);
    assert_eq!(ht.len(), 1);
    assert_eq!(ht.get(&9), Some(&2));
    assert_eq!(ht[&9], 2);
}

#[test]
fn never_inserted_keys_are_absent() {
    let mut ht = HashTable::<i32, i32>::new();
    for k in 0..20 {
        ht.insert(k, k);
    }
    for k in (1..=10).map(|k| k * 37) {
        assert_eq!(ht.get(&k), None);
    }
    let empty = HashTable::<i32, i32>::new();
    assert_eq!(empty.get(&0), None);
}

#[test]
fn end_to_end_scenario() {
    let mut ht = HashTable::<i32, i32>::new();
    for k in 1..=10 {
        ht.insert(k, k * 10 + 1);
    }
    assert_eq!(ht.get(&5), Some(&51));
    assert_eq!(ht[&5], 51);
    assert_eq!(ht.get(&31), None);
    assert_eq!(ht.len(), 10);
    assert_eq!(ht.nbuckets(), 16);
}

#[test]
fn many_keys_share_few_buckets() {
    let mut ht = HashTable::<i32, i32>::new();
    for k in 0..1000 {
        ht.insert(k, k * 3);
    }
    assert_eq!(ht.nbuckets(), 16);
    assert_eq!(ht.len(), 1000);
    for k in 0..1000 {
        assert_eq!(ht.get(&k), Some(&(k * 3)));
    }
}

#[test]
fn hash_is_deterministic() {
    type T = HashTable<i32, i32>;
    assert_eq!(T::hash_for(&12345), T::hash_for(&12345));
    assert_eq!(T::hash_for(&-1), T::hash_for(&-1));
}

#[test]
fn wide_and_unsigned_keys() {
    let mut wide = HashTable::<i64, &str>::new();
    wide.insert(-5_000_000_000, "a");
    wide.insert(5_000_000_000, "b");
    wide.insert(-5_000_000_000, "c");
    assert_eq!(wide.len(), 2);
    assert_eq!(wide.get(&-5_000_000_000), Some(&"c"));
    assert_eq!(wide[&5_000_000_000], "b");
    assert_eq!(wide.get(&0), None);

    let mut unsigned = HashTable::<u64, u32>::new();
    for k in 0..50u64 {
        unsigned.insert(k << 40, k as u32);
    }
    assert_eq!(unsigned.len(), 50);
    assert_eq!(unsigned.get(&(7 << 40)), Some(&7));
    assert_eq!(unsigned.get(&7), None);

    let mut small = HashTable::<u32, bool>::new();
    small.insert(u32::MAX, true);
    small.insert(0, false);
    assert_eq!(small.get(&u32::MAX), Some(&true));
    assert_eq!(small[&0], false);
    assert_eq!(small.len(), 2);
}
