use hashtable::table::DEFAULT_CAPACITY;
use hashtable::HashTable;
use rand::Rng;

#[test]
fn default_empty() {
    let ht = HashTable::<i32, i32>::new();
    assert_eq!(ht.len(), 0);
    assert_eq!(ht.nbuckets(), DEFAULT_CAPACITY);
}

#[test]
fn insert_changes_len() {
    let mut ht = HashTable::<i32, i32>::new();
    let n = 128;
    for i in 0..n {
        ht.insert(i, i * 2 + 1);
        assert_eq!(ht.len(), (i + 1) as usize);
    }
}

#[test]
fn insert_replaces_if_found() {
    let unique_keys = 30;

    let mut ht = HashTable::<i32, i32>::new();
    let n = 128;
    for i in 0..n {
        ht.insert(i % unique_keys, i * 2 + 1);
        assert_eq!(ht.len(), std::cmp::min(i + 1, unique_keys) as usize);
    }
}

#[test]
fn get_existing_returns_link() {
    let rng = 1..=10;
    let keys: Vec<i32> = rng.collect();
    let values: Vec<i32> = keys.iter().map(|k| k * 10 + 1).collect();

    let mut ht = HashTable::<i32, i32>::new();
    for (k, v) in keys.iter().zip(values.iter()) {
        ht.insert(*k, *v);
    }

    let pairs: Vec<(&i32, &i32)> = keys.iter().zip(values.iter()).collect();

    let mut rng = rand::thread_rng();
    for _ in 0..20 {
        let idx = rng.gen_range(0, 10);
        let (k, v) = pairs[idx];

        let value_in_table_get = ht.get(k);
        let value_in_table_index = ht[k];

        assert_eq!(value_in_table_get, Some(v));
        assert_eq!(value_in_table_index, *v);
    }
}

#[test]
fn get_nonexisting_returns_none() {
    let rng = 1..=10;
    let keys: Vec<i32> = rng.collect();
    let values: Vec<i32> = keys.iter().map(|k| k * 10 + 1).collect();

    let mut ht = HashTable::<i32, i32>::new();
    for (k, v) in keys.iter().zip(values.iter()) {
        ht.insert(*k, *v);
    }

    for ne_key in (1..=10).map(|k| k * 31) {
        let expected_none = ht.get(&ne_key);

        assert_eq!(expected_none, None);
    }
}

#[test]
#[should_panic(expected = "entry not found")]
fn index_nonexisting_panics() {
    let ht = HashTable::<i32, i32>::new();

    let _ = ht[&10];
}
