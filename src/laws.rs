//! What holds of a table after any run of insertions from a new one.
//!
//! `HashTable::insert` ends with the view `old@.insert(key, value)`, so the
//! view of a table that was built by inserting `pairs` in order into
//! `HashTable::new()` is `insert_all(Map::empty(), pairs)`.
use vstd::arithmetic::div_mod::{lemma_mod_bound, lemma_small_mod};
use vstd::prelude::*;

verus! {

/// The map that inserting `pairs` one after the other into `m` yields.
pub open spec fn insert_all<K, V>(m: Map<K, V>, pairs: Seq<(K, V)>) -> Map<K, V>
    decreases pairs.len(),
{
    if pairs.len() == 0 {
        m
    } else {
        insert_all(m, pairs.drop_last()).insert(pairs.last().0, pairs.last().1)
    }
}

/// No key occurs twice among `pairs`.
pub open spec fn keys_distinct<K, V>(pairs: Seq<(K, V)>) -> bool {
    forall|a: int, b: int| 0 <= a < b < pairs.len() ==> #[trigger] pairs[a].0 != #[trigger] pairs[b].0
}

/// Some pair of `pairs` has the key `k`.
pub open spec fn has_key<K, V>(pairs: Seq<(K, V)>, k: K) -> bool {
    exists|i: int| 0 <= i < pairs.len() && (#[trigger] pairs[i]).0 == k
}

/// The keys of a run of insertions are exactly the keys inserted, and they
/// are finitely many.
pub proof fn lemma_inserted_keys<K, V>(pairs: Seq<(K, V)>, k: K)
    ensures
        insert_all(Map::<K, V>::empty(), pairs).dom().finite(),
        insert_all(Map::<K, V>::empty(), pairs).contains_key(k) <==> has_key(pairs, k),
    decreases pairs.len(),
{
    if pairs.len() > 0 {
        let init = pairs.drop_last();
        lemma_inserted_keys(init, k);
        if has_key(init, k) {
            let i = choose|i: int| 0 <= i < init.len() && (#[trigger] init[i]).0 == k;
            assert(pairs[i] == init[i]);
        }
        if has_key(pairs, k) && pairs.last().0 != k {
            let i = choose|i: int| 0 <= i < pairs.len() && (#[trigger] pairs[i]).0 == k;
            assert(init[i] == pairs[i]);
        }
    }
}

/// Inserting `n` distinct keys one after the other into a new table leaves
/// it holding `n` keys.
pub proof fn lemma_distinct_inserts_len<K, V>(pairs: Seq<(K, V)>)
    requires
        keys_distinct(pairs),
    ensures
        insert_all(Map::<K, V>::empty(), pairs).len() == pairs.len(),
    decreases pairs.len(),
{
    if pairs.len() > 0 {
        let init = pairs.drop_last();
        let k = pairs.last().0;
        assert(keys_distinct(init)) by {
            assert forall|a: int, b: int| 0 <= a < b < init.len() implies #[trigger] init[a].0
                != #[trigger] init[b].0 by {
                assert(init[a] == pairs[a] && init[b] == pairs[b]);
            }
        }
        lemma_distinct_inserts_len(init);
        lemma_inserted_keys(init, k);
        if has_key(init, k) {
            let i = choose|i: int| 0 <= i < init.len() && (#[trigger] init[i]).0 == k;
            assert(pairs[i].0 == pairs[pairs.len() - 1].0);
        }
    }
}

/// Every key that was inserted, with distinct keys, is found with the value
/// it was inserted with, whatever other keys came after it.
pub proof fn lemma_round_trip<K, V>(pairs: Seq<(K, V)>, i: int)
    requires
        keys_distinct(pairs),
        0 <= i < pairs.len(),
    ensures
        insert_all(Map::<K, V>::empty(), pairs).contains_key(pairs[i].0),
        insert_all(Map::<K, V>::empty(), pairs)[pairs[i].0] == pairs[i].1,
    decreases pairs.len(),
{
    let init = pairs.drop_last();
    if i < pairs.len() - 1 {
        assert(keys_distinct(init)) by {
            assert forall|a: int, b: int| 0 <= a < b < init.len() implies #[trigger] init[a].0
                != #[trigger] init[b].0 by {
                assert(init[a] == pairs[a] && init[b] == pairs[b]);
            }
        }
        assert(init[i] == pairs[i]);
        assert(pairs[i].0 != pairs[pairs.len() - 1].0);
        lemma_round_trip(init, i);
    }
}

/// A key that was never inserted is absent.
pub proof fn lemma_never_inserted_absent<K, V>(pairs: Seq<(K, V)>, k: K)
    requires
        forall|i: int| 0 <= i < pairs.len() ==> (#[trigger] pairs[i]).0 != k,
    ensures
        !insert_all(Map::<K, V>::empty(), pairs).contains_key(k),
{
    lemma_inserted_keys(pairs, k);
}

/// After any run of insertions, inserting one key twice keeps only the
/// second value, and the second insertion does not add to the count.
pub proof fn lemma_overwrite<K, V>(pairs: Seq<(K, V)>, k: K, v1: V, v2: V)
    ensures
        ({
            let once = insert_all(Map::<K, V>::empty(), pairs.push((k, v1)));
            let twice = insert_all(Map::<K, V>::empty(), pairs.push((k, v1)).push((k, v2)));
            &&& twice.contains_key(k)
            &&& twice[k] == v2
            &&& twice.len() == once.len()
        }),
{
    let once_pairs = pairs.push((k, v1));
    let twice_pairs = once_pairs.push((k, v2));
    assert(twice_pairs.drop_last() == once_pairs);
    assert(once_pairs.drop_last() == pairs);
    let once = insert_all(Map::<K, V>::empty(), once_pairs);
    lemma_inserted_keys(once_pairs, k);
    assert(once.insert(k, v2).dom() =~= once.dom());
}

/// The pairs `(i % u, values[i])` for each position `i` of `values`.
pub open spec fn cyclic_pairs<V>(u: u64, values: Seq<V>) -> Seq<(u64, V)> {
    Seq::new(values.len(), |i: int| ((i % (u as int)) as u64, values[i]))
}

/// Inserting the keys `i % u` for `i` in `0..n` leaves `min(n, u)` keys.
pub proof fn lemma_cyclic_inserts_len<V>(u: u64, values: Seq<V>)
    requires
        u > 0,
    ensures
        insert_all(Map::<u64, V>::empty(), cyclic_pairs(u, values)).len() == if values.len() < u {
            values.len() as int
        } else {
            u as int
        },
    decreases values.len(),
{
    let pairs = cyclic_pairs(u, values);
    if values.len() <= u {
        assert forall|a: int, b: int| 0 <= a < b < pairs.len() implies #[trigger] pairs[a].0
            != #[trigger] pairs[b].0 by {
            lemma_small_mod(a as nat, u as nat);
            lemma_small_mod(b as nat, u as nat);
        }
        lemma_distinct_inserts_len(pairs);
    } else {
        let init = values.drop_last();
        let last = values.len() - 1;
        lemma_cyclic_inserts_len(u, init);
        assert(cyclic_pairs(u, init) =~= pairs.drop_last());
        let i = last % (u as int);
        lemma_mod_bound(last, u as int);
        lemma_small_mod(i as nat, u as nat);
        assert(cyclic_pairs(u, init)[i].0 == pairs.last().0);
        lemma_inserted_keys(cyclic_pairs(u, init), pairs.last().0);
        let before = insert_all(Map::<u64, V>::empty(), cyclic_pairs(u, init));
        assert(before.insert(pairs.last().0, pairs.last().1).dom() =~= before.dom());
    }
}

} // verus!
