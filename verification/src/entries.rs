//! Key and value pairs in a sequence: the model of a mapping and of a JSON
//! object.
//!
//! A mapping holds each key once. Its pairs stand in the order in which
//! their keys first came; writing a key again replaces its value in place.

use vstd::prelude::*;

verus! {

/// A key: the characters of a string.
pub type Key = Seq<char>;

/// Whether some pair of `entries` has the key `key`.
pub open spec fn has_key<V>(entries: Seq<(Key, V)>, key: Key) -> bool {
    exists|i: int| 0 <= i < entries.len() && (#[trigger] entries[i]).0 == key
}

/// The index of a pair with the key `key`; meaningful where `has_key` holds,
/// and the only such index where the keys are distinct.
pub open spec fn index_of_key<V>(entries: Seq<(Key, V)>, key: Key) -> int {
    choose|i: int| 0 <= i < entries.len() && (#[trigger] entries[i]).0 == key
}

/// No key stands in two pairs.
pub open spec fn distinct_keys<V>(entries: Seq<(Key, V)>) -> bool {
    forall|i: int, j: int|
        0 <= i < j < entries.len() ==> (#[trigger] entries[i]).0 != (#[trigger] entries[j]).0
}

/// `entries` after `key` was written with `value`: the value is replaced
/// where the key stands already, and the pair is added at the end where it
/// does not.
pub open spec fn upsert<V>(entries: Seq<(Key, V)>, key: Key, value: V) -> Seq<(Key, V)> {
    if has_key(entries, key) {
        entries.update(index_of_key(entries, key), (key, value))
    } else {
        entries.push((key, value))
    }
}

/// The finite map that `entries` stand for.
pub open spec fn as_map<V>(entries: Seq<(Key, V)>) -> Map<Key, V> {
    Map::new(|key: Key| has_key(entries, key), |key: Key| entries[index_of_key(entries, key)].1)
}

/// Where the keys are distinct, a key stands at one index only.
pub proof fn index_of_key_unique<V>(entries: Seq<(Key, V)>, key: Key, i: int)
    requires
        distinct_keys(entries),
        0 <= i < entries.len(),
        entries[i].0 == key,
    ensures
        has_key(entries, key),
        index_of_key(entries, key) == i,
{
    let j = index_of_key(entries, key);
    assert(0 <= j < entries.len() && entries[j].0 == key);
    if j < i {
        assert(entries[j].0 != entries[i].0);
    } else if i < j {
        assert(entries[i].0 != entries[j].0);
    }
}

/// Writing a key is an insertion into the map, the last value winning, and
/// keeps the keys distinct.
pub proof fn upsert_is_insert<V>(entries: Seq<(Key, V)>, key: Key, value: V)
    requires
        distinct_keys(entries),
    ensures
        distinct_keys(upsert(entries, key, value)),
        as_map(upsert(entries, key, value)) == as_map(entries).insert(key, value),
        has_key(entries, key) ==> upsert(entries, key, value).len() == entries.len(),
        !has_key(entries, key) ==> upsert(entries, key, value).len() == entries.len() + 1,
{
    let after = upsert(entries, key, value);
    let at = if has_key(entries, key) {
        index_of_key(entries, key)
    } else {
        entries.len() as int
    };
    assert(0 <= at < after.len() && after[at] == (key, value));
    assert forall|i: int| 0 <= i < after.len() && i != at implies #[trigger] after[i]
        == entries[i] && entries[i].0 != key by {
        if has_key(entries, key) {
            if i < at {
                assert(entries[i].0 != entries[at].0);
            } else {
                assert(entries[at].0 != entries[i].0);
            }
        }
    }
    assert forall|i: int, j: int| 0 <= i < j < after.len() implies (#[trigger] after[i]).0 != (
    #[trigger] after[j]).0 by {
        if i != at && j != at {
            assert(entries[i].0 != entries[j].0);
        }
    }
    assert forall|k: Key| #[trigger] has_key(after, k) <==> (k == key || has_key(entries, k)) by {
        if has_key(after, k) {
            let i = index_of_key(after, k);
            if i != at {
                assert(entries[i].0 == k);
            }
        }
        if k == key {
            assert(after[at].0 == k);
        } else if has_key(entries, k) {
            let i = index_of_key(entries, k);
            assert(after[i].0 == k);
        }
    }
    assert forall|k: Key| has_key(after, k) implies #[trigger] as_map(after)[k] == as_map(
        entries,
    ).insert(key, value)[k] by {
        let i = index_of_key(after, k);
        if k == key {
            index_of_key_unique(after, k, at);
        } else {
            assert(i != at);
            index_of_key_unique(entries, k, i);
        }
    }
    assert(as_map(after) =~= as_map(entries).insert(key, value));
}

} // verus!
