//! The table: a fixed array of buckets, each a list of entries.
use crate::key::{spec_hash, HashKey};
use std::collections::hash_map::DefaultHasher;
use std::hash::Hasher;
use vstd::prelude::*;

verus! {

/// The number of buckets that a new table has.
pub const DEFAULT_CAPACITY: usize = 16;

/// A stored key with its value.
struct BucketNode<K, V> {
    key: K,
    value: V,
}

/// The entries whose keys select one slot of the table.
struct Bucket<K, V> {
    list: Vec<BucketNode<K, V>>,
}

impl<K: HashKey, V> Bucket<K, V> {
    /// A bucket with no entries.
    fn empty() -> (r: Bucket<K, V>)
        ensures
            r.list@.len() == 0,
    {
        Bucket { list: Vec::new() }
    }

    /// No two entries of the bucket have the same key.
    spec fn keys_unique(&self) -> bool {
        forall|a: int, b: int|
            0 <= a < b < self.list@.len() ==> #[trigger] self.list@[a].key != #[trigger] self.list@[b].key
    }

    /// The position of the entry with this key, if there is one.
    fn find(&self, key: &K) -> (r: Option<usize>)
        ensures
            match r {
                Some(j) => j < self.list@.len() && self.list@[j as int].key == *key,
                None => forall|j: int| 0 <= j < self.list@.len() ==> self.list@[j].key != *key,
            },
    {
        let mut j: usize = 0;
        while j < self.list.len()
            invariant
                j <= self.list@.len(),
                forall|i: int| 0 <= i < j ==> self.list@[i].key != *key,
            decreases self.list@.len() - j,
        {
            if self.list[j].key.same_key(key) {
                return Some(j);
            }
            j += 1;
        }
        None
    }
}

/// The bucket that a key belongs to in a table of `n` buckets.
pub open spec fn bucket_index<K: HashKey>(key: K, n: nat) -> int {
    (spec_hash(key) as usize) as int % (n as int)
}

/// A map from keys to values, kept in a fixed number of buckets chosen by
/// the keys' hashes.
#[verifier::reject_recursive_types(K)]
pub struct HashTable<K, V> {
    table: Vec<Bucket<K, V>>,
    count: usize,
    contents: Ghost<Map<K, V>>,
}

impl<K: HashKey, V> View for HashTable<K, V> {
    type V = Map<K, V>;

    closed spec fn view(&self) -> Map<K, V> {
        self.contents@
    }
}

impl<K: HashKey, V> HashTable<K, V> {
    /// The number of buckets.
    pub closed spec fn spec_nbuckets(&self) -> nat {
        self.table@.len()
    }

    /// Each entry sits in the bucket that its key selects and agrees with
    /// the map; each key of the map has an entry; keys are unique; the
    /// count is the number of keys.
    pub closed spec fn wf(&self) -> bool {
        let n = self.table@.len();
        &&& n > 0
        &&& self.contents@.dom().finite()
        &&& self.count == self.contents@.len()
        &&& forall|i: int| 0 <= i < n ==> (#[trigger] self.table@[i]).keys_unique()
        &&& forall|i: int, j: int|
            0 <= i < n && 0 <= j < self.table@[i].list@.len() ==> {
                let e = #[trigger] self.table@[i].list@[j];
                &&& bucket_index(e.key, n) == i
                &&& self.contents@.contains_key(e.key)
                &&& self.contents@[e.key] == e.value
            }
        &&& forall|k: K| #[trigger]
            self.contents@.contains_key(k) ==> exists|j: int|
                0 <= j < self.table@[bucket_index(k, n)].list@.len()
                    && (#[trigger] self.table@[bucket_index(k, n)].list@[j]).key == k
    }

    /// Hashes a key with the standard library's default hasher, fed with
    /// the key's bytes.
    pub fn hash_for(key: &K) -> (r: u64)
        ensures
            r == spec_hash(*key),
    {
        let bytes = key.to_hash_bytes();
        let mut hasher = DefaultHasher::new();
        hasher.write(bytes.as_slice());
        hasher.finish()
    }

    /// Makes an empty table with the default number of buckets.
    pub fn new() -> (r: HashTable<K, V>)
        ensures
            r.wf(),
            r@ == Map::<K, V>::empty(),
            r.spec_nbuckets() == DEFAULT_CAPACITY,
    {
        let mut container: Vec<Bucket<K, V>> = Vec::new();
        let mut i: usize = 0;
        while i < DEFAULT_CAPACITY
            invariant
                i <= DEFAULT_CAPACITY,
                container@.len() == i,
                forall|b: int| 0 <= b < i ==> (#[trigger] container@[b]).list@.len() == 0,
            decreases DEFAULT_CAPACITY - i,
        {
            container.push(Bucket::empty());
            i += 1;
        }
        HashTable { table: container, count: 0, contents: Ghost(Map::empty()) }
    }

    /// The number of keys stored.
    pub fn len(&self) -> (r: usize)
        requires
            self.wf(),
        ensures
            r == self@.len(),
    {
        self.count
    }

    /// The number of buckets.
    pub fn nbuckets(&self) -> (r: usize)
        ensures
            r == self.spec_nbuckets(),
    {
        self.table.len()
    }

    /// Stores `value` under `key`. An entry with an equal key is replaced;
    /// otherwise a new entry is added and the count grows by one.
    pub fn insert(&mut self, key: K, value: V)
        requires
            old(self).wf(),
            old(self)@.contains_key(key) || old(self)@.len() < usize::MAX,
        ensures
            final(self).wf(),
            final(self)@ == old(self)@.insert(key, value),
            final(self).spec_nbuckets() == old(self).spec_nbuckets(),
    {
        let ghost k = key;
        let ghost v = value;
        let ghost n = self.table@.len();
        let hash = Self::hash_for(&key);
        let pos_in_table = (#[verifier::truncate] (hash as usize)) % self.nbuckets();
        let ghost p = pos_in_table as int;
        let mut bucket = Bucket::empty();
        self.table.set_and_swap(pos_in_table, &mut bucket);
        let ghost before = bucket.list@;
        let ghost mut slot: int = before.len() as int;
        assert(bucket == old(self).table@[p]);
        match bucket.find(&key) {
            Some(j) => {
                bucket.list.set(j, BucketNode { key, value });
                proof {
                    slot = j as int;
                }
            },
            None => {
                assert(!old(self).contents@.contains_key(k));
                bucket.list.push(BucketNode { key, value });
                self.count += 1;
            },
        }
        let ghost after = bucket.list@;
        self.table.set(pos_in_table, bucket);
        self.contents = Ghost(self.contents@.insert(k, v));
        proof {
            let old_m = old(self).contents@;
            let m = self.contents@;
            assert(bucket_index(k, n) == p);
            // The rebuilt bucket holds the old keys, with `k` either kept in
            // place or added at the end.
            assert(forall|j: int|
                0 <= j < after.len() ==> (#[trigger] after[j]).key == k || (j < before.len()
                    && after[j] == before[j]));
            assert(0 <= slot < after.len() && after[slot].key == k && after[slot].value == v);
            assert(forall|j: int|
                0 <= j < before.len() && (#[trigger] before[j]).key != k ==> after[j] == before[j]);
            assert forall|i: int| 0 <= i < n implies (#[trigger] self.table@[i]).keys_unique() by {
                if i == p {
                    assert forall|a: int, b: int| 0 <= a < b < after.len() implies
                        #[trigger] after[a].key != #[trigger] after[b].key by {
                        assert(old(self).table@[p].keys_unique());
                    }
                }
            }
            assert forall|i: int, j: int|
                0 <= i < n && 0 <= j < self.table@[i].list@.len() implies {
                    let e = #[trigger] self.table@[i].list@[j];
                    &&& bucket_index(e.key, n) == i
                    &&& m.contains_key(e.key)
                    &&& m[e.key] == e.value
                } by {
                if i != p {
                    assert(self.table@[i] == old(self).table@[i]);
                    let e = old(self).table@[i].list@[j];
                    assert(e.key != k);
                }
            }
            assert forall|k2: K| #[trigger] m.contains_key(k2) implies exists|j: int|
                0 <= j < self.table@[bucket_index(k2, n)].list@.len()
                    && (#[trigger] self.table@[bucket_index(k2, n)].list@[j]).key == k2 by {
                if k2 != k {
                    assert(old_m.contains_key(k2));
                    let q = bucket_index(k2, n);
                    let j = choose|j: int|
                        0 <= j < old(self).table@[q].list@.len()
                            && (#[trigger] old(self).table@[q].list@[j]).key == k2;
                    assert(self.table@[q].list@[j].key == k2);
                } else {
                    assert(self.table@[p].list@[slot].key == k);
                }
            }
            assert(m.dom() =~= old_m.dom().insert(k));
        }
    }

    /// The value stored under `key`, if there is one.
    pub fn get(&self, key: &K) -> (r: Option<&V>)
        requires
            self.wf(),
        ensures
            r == (if self@.contains_key(*key) {
                Some(&self@[*key])
            } else {
                None
            }),
    {
        let hash = Self::hash_for(key);
        let pos_in_table = (#[verifier::truncate] (hash as usize)) % self.nbuckets();
        let bucket = &self.table[pos_in_table];
        match bucket.find(key) {
            Some(j) => {
                assert(self.contents@.contains_key(bucket.list@[j as int].key));
                Some(&bucket.list[j].value)
            },
            None => {
                assert(!self.contents@.contains_key(*key));
                None
            },
        }
    }
}

impl<'a, K: HashKey, V> std::ops::Index<&'a K> for HashTable<K, V> {
    type Output = V;

    /// The value stored under `key`; the key must be present, and the
    /// lookup stops with "entry not found" where it is not.
    fn index(&self, key: &'a K) -> (r: &V)
        ensures
            *r == self@[*key],
    {
        self.get(key).expect("entry not found")
    }
}

impl<'a, K: HashKey, V> vstd::std_specs::core::IndexSpecImpl<&'a K> for HashTable<K, V> {
    open spec fn index_req(&self, key: &&'a K) -> bool {
        self.wf() && self@.contains_key(**key)
    }
}

} // verus!
