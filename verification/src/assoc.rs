//! Association lists: keys without repetition beside their values, read as a map.

use vstd::prelude::*;

verus! {

/// The map that takes each of `keys` to the value at the same place in `values`.
pub open spec fn assoc_map<K, V>(keys: Seq<K>, values: Seq<V>) -> Map<K, V> {
    Map::new(|k: K| keys.contains(k), |k: K| values[keys.index_of(k)])
}

/// A key that stands at place `i` is mapped to the value at place `i`.
pub proof fn lemma_assoc_index<K, V>(keys: Seq<K>, values: Seq<V>, i: int)
    requires
        keys.no_duplicates(),
        0 <= i < keys.len(),
    ensures
        keys.index_of(keys[i]) == i,
        assoc_map(keys, values).contains_key(keys[i]),
        assoc_map(keys, values)[keys[i]] == values[i],
{
    let j = keys.index_of(keys[i]);
    assert(keys[j] == keys[i]);
}

/// Adding a new key with its value at the end inserts the pair into the map.
pub proof fn lemma_assoc_push<K, V>(keys: Seq<K>, values: Seq<V>, key: K, value: V)
    requires
        keys.no_duplicates(),
        keys.len() == values.len(),
        !keys.contains(key),
    ensures
        keys.push(key).no_duplicates(),
        assoc_map(keys.push(key), values.push(value)) == assoc_map(keys, values).insert(
            key,
            value,
        ),
{
    let keys2 = keys.push(key);
    let values2 = values.push(value);
    assert(keys2.no_duplicates()) by {
        assert forall|i: int, j: int|
            0 <= i < keys2.len() && 0 <= j < keys2.len() && i != j implies keys2[i] != keys2[j] by {
            if i < keys.len() {
                assert(keys[i] == keys2[i]);
            }
            if j < keys.len() {
                assert(keys[j] == keys2[j]);
            }
        }
    }
    assert forall|k: K| keys2.contains(k) <==> (keys.contains(k) || k == key) by {
        if keys.contains(k) {
            assert(keys2[keys.index_of(k)] == k);
        }
        if k == key {
            assert(keys2[keys.len() as int] == k);
        }
    }
    assert forall|k: K| keys.contains(k) implies assoc_map(keys2, values2)[k] == assoc_map(
        keys,
        values,
    )[k] by {
        let i = keys.index_of(k);
        assert(keys2[i] == k);
        lemma_assoc_index(keys2, values2, i);
    }
    lemma_assoc_index(keys2, values2, keys.len() as int);
    assert(assoc_map(keys2, values2) =~= assoc_map(keys, values).insert(key, value));
}

/// Replacing the value at place `i` replaces what the key at place `i` is mapped to.
pub proof fn lemma_assoc_update<K, V>(keys: Seq<K>, values: Seq<V>, i: int, value: V)
    requires
        keys.no_duplicates(),
        keys.len() == values.len(),
        0 <= i < keys.len(),
    ensures
        assoc_map(keys, values.update(i, value)) == assoc_map(keys, values).insert(keys[i], value),
{
    let values2 = values.update(i, value);
    lemma_assoc_index(keys, values2, i);
    assert forall|k: K| keys.contains(k) && k != keys[i] implies assoc_map(keys, values2)[k]
        == assoc_map(keys, values)[k] by {
        let j = keys.index_of(k);
        assert(keys[j] == k);
    }
    assert(assoc_map(keys, values2) =~= assoc_map(keys, values).insert(keys[i], value));
}

/// The map of the first `n + 1` pairs is the map of the first `n` with the next pair
/// inserted, under a key that the first `n` do not hold.
pub proof fn lemma_assoc_take<K, V>(keys: Seq<K>, values: Seq<V>, n: int)
    requires
        keys.no_duplicates(),
        keys.len() == values.len(),
        0 <= n < keys.len(),
    ensures
        keys.take(n).no_duplicates(),
        !keys.take(n).contains(keys[n]),
        assoc_map(keys.take(n + 1), values.take(n + 1)) == assoc_map(
            keys.take(n),
            values.take(n),
        ).insert(keys[n], values[n]),
{
    assert(keys.take(n + 1) =~= keys.take(n).push(keys[n]));
    assert(values.take(n + 1) =~= values.take(n).push(values[n]));
    lemma_assoc_push(keys.take(n), values.take(n), keys[n], values[n]);
}

} // verus!
