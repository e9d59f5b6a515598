//! Association lists as finite maps.
//!
//! A sequence of `(key, value)` pairs stands for the map that sends each key
//! to the value of the first pair that carries it. Later pairs with the same
//! key are shadowed. This module defines that reading and proves how it
//! reacts to the two ways in which the lists of this crate grow: appending a
//! pair under a fresh key and replacing the value of the first pair of a key.

use vstd::prelude::*;

verus! {

/// `pairs[i]` exists and carries `key`.
pub open spec fn key_at<K, V>(pairs: Seq<(K, V)>, key: K, i: int) -> bool {
    0 <= i < pairs.len() && pairs[i].0 == key
}

/// `pairs[i]` is the first pair that carries `key`.
pub open spec fn is_first<K, V>(pairs: Seq<(K, V)>, key: K, i: int) -> bool {
    &&& key_at(pairs, key, i)
    &&& forall|j: int| 0 <= j < i ==> !key_at(pairs, key, j)
}

/// Some pair carries `key`.
pub open spec fn has_key<K, V>(pairs: Seq<(K, V)>, key: K) -> bool {
    exists|i: int| key_at(pairs, key, i)
}

/// The index of the first pair that carries `key`, if any pair does.
pub open spec fn first_index<K, V>(pairs: Seq<(K, V)>, key: K) -> int {
    choose|i: int| is_first(pairs, key, i)
}

/// The map that the list stands for.
pub open spec fn assoc_map<K, V>(pairs: Seq<(K, V)>) -> Map<K, V> {
    Map::new(|k: K| has_key(pairs, k), |k: K| pairs[first_index(pairs, k)].1)
}

/// A key that occurs at all has a first occurrence, at or before any given one.
pub proof fn lemma_first_exists<K, V>(pairs: Seq<(K, V)>, key: K, i: int)
    requires
        key_at(pairs, key, i),
    ensures
        is_first(pairs, key, first_index(pairs, key)),
        first_index(pairs, key) <= i,
    decreases i,
{
    if exists|j: int| 0 <= j < i && key_at(pairs, key, j) {
        let j = choose|j: int| 0 <= j < i && key_at(pairs, key, j);
        lemma_first_exists(pairs, key, j);
    } else {
        assert(is_first(pairs, key, i));
    }
}

/// The first occurrence of a key is the one that the map reads.
pub proof fn lemma_first_is<K, V>(pairs: Seq<(K, V)>, key: K, i: int)
    requires
        is_first(pairs, key, i),
    ensures
        has_key(pairs, key),
        first_index(pairs, key) == i,
        assoc_map(pairs).contains_key(key),
        assoc_map(pairs)[key] == pairs[i].1,
{
    lemma_first_exists(pairs, key, i);
}

/// A key that no pair carries is not in the map.
pub proof fn lemma_absent<K, V>(pairs: Seq<(K, V)>, key: K)
    requires
        forall|j: int| 0 <= j < pairs.len() ==> pairs[j].0 != key,
    ensures
        !has_key(pairs, key),
        !assoc_map(pairs).contains_key(key),
{
}

/// The empty list stands for the empty map.
pub proof fn lemma_assoc_empty<K, V>()
    ensures
        assoc_map(Seq::<(K, V)>::empty()) == Map::<K, V>::empty(),
{
    let pairs = Seq::<(K, V)>::empty();
    assert forall|k: K| !has_key(pairs, k) by {
        lemma_absent(pairs, k);
    }
}

/// Two lists with the same keys in the same places have the same first
/// occurrences.
pub proof fn lemma_same_keys<K, V>(a: Seq<(K, V)>, b: Seq<(K, V)>, key: K)
    requires
        a.len() == b.len(),
        forall|j: int| 0 <= j < a.len() ==> a[j].0 == b[j].0,
    ensures
        has_key(a, key) == has_key(b, key),
        has_key(a, key) ==> first_index(a, key) == first_index(b, key),
{
    if has_key(a, key) {
        let i = choose|i: int| key_at(a, key, i);
        lemma_first_exists(a, key, i);
        let f = first_index(a, key);
        assert forall|j: int| 0 <= j < f implies !key_at(b, key, j) by {
            assert(!key_at(a, key, j));
        }
        lemma_first_is(b, key, f);
    }
    if has_key(b, key) {
        let i = choose|i: int| key_at(b, key, i);
        assert(key_at(a, key, i));
    }
}

/// Appending a pair under a key that the list does not hold yet inserts it
/// into the map.
pub proof fn lemma_push_fresh<K, V>(pairs: Seq<(K, V)>, key: K, value: V)
    requires
        !has_key(pairs, key),
    ensures
        assoc_map(pairs.push((key, value))) == assoc_map(pairs).insert(key, value),
{
    let grown = pairs.push((key, value));
    let n = pairs.len() as int;
    assert forall|j: int| 0 <= j < n implies !key_at(grown, key, j) by {
        assert(!key_at(pairs, key, j));
    }
    lemma_first_is(grown, key, n);
    assert forall|k: K| k != key implies has_key(grown, k) == has_key(pairs, k) && (has_key(
        pairs,
        k,
    ) ==> grown[first_index(grown, k)].1 == pairs[first_index(pairs, k)].1) by {
        if has_key(pairs, k) {
            let i = choose|i: int| key_at(pairs, k, i);
            lemma_first_exists(pairs, k, i);
            let f = first_index(pairs, k);
            assert forall|j: int| 0 <= j < f implies !key_at(grown, k, j) by {
                assert(!key_at(pairs, k, j));
            }
            lemma_first_is(grown, k, f);
        }
        if has_key(grown, k) {
            let i = choose|i: int| key_at(grown, k, i);
            assert(key_at(pairs, k, i));
        }
    }
}

/// Replacing the value of the first pair of a key overwrites the key in the
/// map.
pub proof fn lemma_update_first<K, V>(pairs: Seq<(K, V)>, key: K, i: int, value: V)
    requires
        is_first(pairs, key, i),
    ensures
        assoc_map(pairs.update(i, (key, value))) == assoc_map(pairs).insert(key, value),
{
    let changed = pairs.update(i, (key, value));
    assert forall|j: int| 0 <= j < i implies !key_at(changed, key, j) by {
        assert(!key_at(pairs, key, j));
    }
    lemma_first_is(changed, key, i);
    assert forall|k: K| k != key implies has_key(changed, k) == has_key(pairs, k) && (has_key(
        pairs,
        k,
    ) ==> changed[first_index(changed, k)].1 == pairs[first_index(pairs, k)].1) by {
        lemma_same_keys(pairs, changed, k);
        if has_key(pairs, k) {
            let c = choose|c: int| key_at(pairs, k, c);
            lemma_first_exists(pairs, k, c);
        }
    }
}

/// Changing every value of a list by one function changes every value of the
/// map by it.
pub proof fn lemma_map_values<K, V, W>(pairs: Seq<(K, V)>, changed: Seq<(K, W)>, f: spec_fn(V) -> W)
    requires
        changed.len() == pairs.len(),
        forall|j: int| 0 <= j < pairs.len() ==> changed[j] == (pairs[j].0, f(pairs[j].1)),
    ensures
        assoc_map(changed) == assoc_map(pairs).map_values(f),
{
    assert forall|k: K| has_key(changed, k) == has_key(pairs, k) && (has_key(pairs, k)
        ==> changed[first_index(changed, k)].1 == f(pairs[first_index(pairs, k)].1)) by {
        if has_key(pairs, k) {
            let i = choose|i: int| key_at(pairs, k, i);
            lemma_first_exists(pairs, k, i);
            let first = first_index(pairs, k);
            assert forall|j: int| 0 <= j < first implies !key_at(changed, k, j) by {
                assert(!key_at(pairs, k, j));
            }
            lemma_first_is(changed, k, first);
        }
        if has_key(changed, k) {
            let i = choose|i: int| key_at(changed, k, i);
            assert(key_at(pairs, k, i));
        }
    }
}

/// No key occurs twice.
pub open spec fn distinct_keys<K, V>(pairs: Seq<(K, V)>) -> bool {
    forall|i: int, j: int| 0 <= i < j < pairs.len() ==> pairs[i].0 != pairs[j].0
}

/// Appending a pair under a key that the list does not hold keeps the keys
/// distinct.
pub proof fn lemma_push_fresh_distinct<K, V>(pairs: Seq<(K, V)>, key: K, value: V)
    requires
        distinct_keys(pairs),
        !has_key(pairs, key),
    ensures
        distinct_keys(pairs.push((key, value))),
{
    let grown = pairs.push((key, value));
    assert forall|i: int, j: int| 0 <= i < j < grown.len() implies grown[i].0 != grown[j].0 by {
        if j == pairs.len() {
            assert(!key_at(pairs, key, i));
        }
    }
}

/// Two lists with the same keys in the same places have distinct keys
/// together.
pub proof fn lemma_same_keys_distinct<K, V, W>(a: Seq<(K, V)>, b: Seq<(K, W)>)
    requires
        a.len() == b.len(),
        forall|j: int| 0 <= j < a.len() ==> a[j].0 == b[j].0,
        distinct_keys(a),
    ensures
        distinct_keys(b),
{
}

/// Replacing the value of a pair keeps the keys distinct.
pub proof fn lemma_update_distinct<K, V>(pairs: Seq<(K, V)>, i: int, value: V)
    requires
        distinct_keys(pairs),
        0 <= i < pairs.len(),
    ensures
        distinct_keys(pairs.update(i, (pairs[i].0, value))),
{
}

} // verus!
