//! Sequences of entries, each a key with its value, in which no key occurs
//! twice: the model of a map that remembers the order of its entries.

use vstd::prelude::*;

verus! {

/// No key has two entries.
pub open spec fn distinct_keys<K, V>(entries: Seq<(K, V)>) -> bool {
    forall|i: int, j: int|
        0 <= i < j < entries.len() ==> (#[trigger] entries[i]).0 != (#[trigger] entries[j]).0
}

/// Some entry is that of `key`.
pub open spec fn has_key<K, V>(entries: Seq<(K, V)>, key: K) -> bool {
    exists|i: int| 0 <= i < entries.len() && (#[trigger] entries[i]).0 == key
}

/// The position of an entry of `key`, where there is one.
pub open spec fn position_of<K, V>(entries: Seq<(K, V)>, key: K) -> int
    recommends
        has_key(entries, key),
{
    choose|i: int| 0 <= i < entries.len() && (#[trigger] entries[i]).0 == key
}

/// The value entered for `key`, if there is one.
pub open spec fn value_of<K, V>(entries: Seq<(K, V)>, key: K) -> Option<V> {
    if has_key(entries, key) {
        Some(entries[position_of(entries, key)].1)
    } else {
        None
    }
}

/// The keys of the entries, in order.
pub open spec fn keys_of<K, V>(entries: Seq<(K, V)>) -> Seq<K> {
    entries.map_values(|entry: (K, V)| entry.0)
}

/// The entries after `value` has been entered for `key`: the entry of `key`
/// holds the new value in its old place, or a new entry follows the others.
pub open spec fn put<K, V>(entries: Seq<(K, V)>, key: K, value: V) -> Seq<(K, V)> {
    if has_key(entries, key) {
        entries.update(position_of(entries, key), (key, value))
    } else {
        entries.push((key, value))
    }
}

/// The entries without that of `key`; the others keep their order.
pub open spec fn without<K, V>(entries: Seq<(K, V)>, key: K) -> Seq<(K, V)> {
    if has_key(entries, key) {
        entries.remove(position_of(entries, key))
    } else {
        entries
    }
}

/// Where the keys are distinct, an entry of `key` stands at the position of
/// `key`.
pub proof fn lemma_position_unique<K, V>(entries: Seq<(K, V)>, key: K, i: int)
    requires
        distinct_keys(entries),
        0 <= i < entries.len(),
        entries[i].0 == key,
    ensures
        has_key(entries, key),
        position_of(entries, key) == i,
{
    let p = position_of(entries, key);
    if p < i {
        assert(entries[p].0 != entries[i].0);
    } else if i < p {
        assert(entries[i].0 != entries[p].0);
    }
}

/// Entries with the same keys in the same order as entries with distinct
/// keys have distinct keys too, and each key has its entry at the same
/// position in both.
pub proof fn lemma_same_keys<K, V, W>(entries: Seq<(K, V)>, others: Seq<(K, W)>)
    requires
        distinct_keys(entries),
        others.len() == entries.len(),
        forall|i: int| 0 <= i < entries.len() ==> (#[trigger] others[i]).0 == entries[i].0,
    ensures
        distinct_keys(others),
        forall|key: K| #[trigger] has_key(others, key) == has_key(entries, key),
        forall|key: K|
            has_key(entries, key) ==> #[trigger] position_of(others, key) == position_of(
                entries,
                key,
            ),
{
    assert forall|i: int, j: int| 0 <= i < j < others.len() implies (#[trigger] others[i]).0 != (
    #[trigger] others[j]).0 by {
        assert(entries[i].0 != entries[j].0);
    }
    assert forall|key: K| #[trigger] has_key(others, key) == has_key(entries, key) by {
        if has_key(entries, key) {
            let p = position_of(entries, key);
            assert(others[p].0 == key);
        }
        if has_key(others, key) {
            let p = position_of(others, key);
            assert(entries[p].0 == key);
        }
    }
    assert forall|key: K| has_key(entries, key) implies #[trigger] position_of(others, key)
        == position_of(entries, key) by {
        let p = position_of(entries, key);
        assert(others[p].0 == key);
        lemma_position_unique(others, key, p);
    }
}

/// Entering a value keeps the keys distinct, and the value is then the one
/// entered for its key.
pub proof fn lemma_put_distinct<K, V>(entries: Seq<(K, V)>, key: K, value: V)
    requires
        distinct_keys(entries),
    ensures
        distinct_keys(put(entries, key, value)),
        value_of(put(entries, key, value), key) == Some(value),
{
    let after = put(entries, key, value);
    let at = if has_key(entries, key) {
        position_of(entries, key)
    } else {
        entries.len() as int
    };
    assert(after[at] == (key, value));
    assert forall|i: int, j: int| 0 <= i < j < after.len() implies (#[trigger] after[i]).0 != (
    #[trigger] after[j]).0 by {
        if has_key(entries, key) {
            assert(after[i].0 == entries[i].0);
            assert(after[j].0 == entries[j].0);
        } else {
            assert(after[i] == entries[i]);
            if j < entries.len() {
                assert(after[j] == entries[j]);
            }
        }
    }
    lemma_position_unique(after, key, at);
}

/// Entering a value for a key and then another for the same key leaves
/// what entering the second alone leaves.
pub proof fn lemma_put_twice<K, V>(entries: Seq<(K, V)>, key: K, first: V, second: V)
    requires
        distinct_keys(entries),
    ensures
        put(put(entries, key, first), key, second) == put(entries, key, second),
{
    let once = put(entries, key, first);
    lemma_put_distinct(entries, key, first);
    let at = if has_key(entries, key) {
        position_of(entries, key)
    } else {
        entries.len() as int
    };
    assert(once[at] == (key, first));
    lemma_position_unique(once, key, at);
    assert(put(once, key, second) =~= put(entries, key, second));
}

/// Removing an entry keeps the keys distinct, and the key then has no
/// entry.
pub proof fn lemma_without_distinct<K, V>(entries: Seq<(K, V)>, key: K)
    requires
        distinct_keys(entries),
    ensures
        distinct_keys(without(entries, key)),
        !has_key(without(entries, key), key),
{
    let after = without(entries, key);
    if has_key(entries, key) {
        let p = position_of(entries, key);
        assert forall|i: int, j: int| 0 <= i < j < after.len() implies (#[trigger] after[i]).0 != (
        #[trigger] after[j]).0 by {
            let a = if i < p { i } else { i + 1 };
            let b = if j < p { j } else { j + 1 };
            assert(after[i] == entries[a]);
            assert(after[j] == entries[b]);
        }
        assert forall|i: int| 0 <= i < after.len() implies (#[trigger] after[i]).0 != key by {
            let a = if i < p { i } else { i + 1 };
            assert(after[i] == entries[a]);
            if a < p {
                assert(entries[a].0 != entries[p].0);
            } else {
                assert(entries[p].0 != entries[a].0);
            }
        }
    }
}

/// The keys of entries with distinct keys hold no key twice.
pub proof fn lemma_keys_distinct<K, V>(entries: Seq<(K, V)>)
    requires
        distinct_keys(entries),
    ensures
        keys_of(entries).no_duplicates(),
{
    let keys = keys_of(entries);
    assert forall|i: int, j: int| 0 <= i < keys.len() && 0 <= j < keys.len() && i != j implies keys[i]
        != keys[j] by {
        if i < j {
            assert(entries[i].0 != entries[j].0);
        } else {
            assert(entries[j].0 != entries[i].0);
        }
    }
}

/// The keys of entries with distinct keys: a key has an entry exactly when
/// it is among them, entering a value for a new key adds the key at the end
/// and entering one for an old key changes nothing, and removing an entry
/// removes its key.
pub proof fn lemma_keys_of<K, V>(entries: Seq<(K, V)>, key: K, value: V)
    requires
        distinct_keys(entries),
    ensures
        keys_of(entries).contains(key) == has_key(entries, key),
        has_key(entries, key) ==> keys_of(entries).index_of(key) == position_of(entries, key),
        keys_of(put(entries, key, value)) == if has_key(entries, key) {
            keys_of(entries)
        } else {
            keys_of(entries).push(key)
        },
        keys_of(without(entries, key)) == if has_key(entries, key) {
            keys_of(entries).remove(position_of(entries, key))
        } else {
            keys_of(entries)
        },
{
    let keys = keys_of(entries);
    if has_key(entries, key) {
        let p = position_of(entries, key);
        assert(keys[p] == key);
        let q = keys.index_of(key);
        assert(entries[q].0 == key);
        lemma_position_unique(entries, key, q);
    }
    if keys.contains(key) {
        let q = keys.index_of(key);
        assert(entries[q].0 == key);
    }
    if has_key(entries, key) {
        assert(keys_of(put(entries, key, value)) =~= keys);
        assert(keys_of(without(entries, key)) =~= keys.remove(position_of(entries, key)));
    } else {
        assert(keys_of(put(entries, key, value)) =~= keys.push(key));
    }
}

} // verus!
