//! Ledgers: what is kept under identifiers.
//!
//! Identifiers are sequences of characters.  A ledger is a sequence of
//! entries, each an identifier with its record, in the order in which the
//! entries were made; no identifier occurs twice.

use vstd::prelude::*;

verus! {

/// Whether the ledger has an entry under `key`.
pub open spec fn has_key<V>(entries: Seq<(Seq<char>, V)>, key: Seq<char>) -> bool {
    exists|i: int| 0 <= i < entries.len() && (#[trigger] entries[i]).0 == key
}

/// The place of the entry under `key`, where there is one.
pub open spec fn key_index<V>(entries: Seq<(Seq<char>, V)>, key: Seq<char>) -> int {
    choose|i: int| 0 <= i < entries.len() && (#[trigger] entries[i]).0 == key
}

/// No identifier occurs twice in the ledger.
pub open spec fn distinct_keys<V>(entries: Seq<(Seq<char>, V)>) -> bool {
    forall|i: int, j: int|
        0 <= i < j < entries.len() ==> (#[trigger] entries[i]).0 != (#[trigger] entries[j]).0
}

/// The ledger with the record under `key` replaced, or with a new entry at
/// the end where there was none.
pub open spec fn put<V>(entries: Seq<(Seq<char>, V)>, key: Seq<char>, value: V) -> Seq<
    (Seq<char>, V),
> {
    if has_key(entries, key) {
        entries.update(key_index(entries, key), (key, value))
    } else {
        entries.push((key, value))
    }
}

/// In a ledger without repetition an entry is found where it stands.
pub proof fn lemma_key_index<V>(entries: Seq<(Seq<char>, V)>, i: int)
    requires
        distinct_keys(entries),
        0 <= i < entries.len(),
    ensures
        has_key(entries, entries[i].0),
        key_index(entries, entries[i].0) == i,
{
    let key = entries[i].0;
    let j = key_index(entries, key);
    assert(0 <= j < entries.len() && entries[j].0 == key);
    if j < i {
        assert(entries[j].0 != entries[i].0);
    }
    if i < j {
        assert(entries[i].0 != entries[j].0);
    }
}

/// Writing a record keeps the ledger free of repetition, puts the record
/// under its key and leaves every other key as it was.
pub proof fn lemma_put<V>(entries: Seq<(Seq<char>, V)>, key: Seq<char>, value: V)
    requires
        distinct_keys(entries),
    ensures
        distinct_keys(put(entries, key, value)),
        has_key(put(entries, key, value), key),
        put(entries, key, value)[key_index(put(entries, key, value), key)].1 == value,
        forall|other: Seq<char>|
            other != key ==> has_key(put(entries, key, value), other) == has_key(entries, other),
        forall|other: Seq<char>|
            other != key && has_key(entries, other) ==> put(entries, key, value)[key_index(
                put(entries, key, value),
                other,
            )].1 == entries[key_index(entries, other)].1,
{
    let after = put(entries, key, value);
    let at: int = if has_key(entries, key) {
        key_index(entries, key)
    } else {
        entries.len() as int
    };
    assert(after.len() > at && after[at] == (key, value));
    assert forall|i: int| 0 <= i < after.len() && i != at implies after[i] == entries[i] && after[i].0 != key by {
        if has_key(entries, key) {
            lemma_key_index(entries, i);
            if entries[i].0 == key {
                assert(key_index(entries, key) == i);
            }
        } else {
            if entries[i].0 == key {
                assert(has_key(entries, key));
            }
        }
    }
    assert forall|i: int, j: int| 0 <= i < j < after.len() implies (#[trigger] after[i]).0 != (
    #[trigger] after[j]).0 by {
        if i != at && j != at {
            assert(entries[i].0 != entries[j].0);
        }
    }
    lemma_key_index(after, at);
    assert forall|other: Seq<char>| other != key implies has_key(after, other) == has_key(
        entries,
        other,
    ) by {
        if has_key(entries, other) {
            let i = key_index(entries, other);
            assert(after[i].0 == other);
        }
        if has_key(after, other) {
            let i = key_index(after, other);
            assert(entries[i].0 == other);
        }
    }
    assert forall|other: Seq<char>| other != key && has_key(entries, other) implies after[key_index(
        after,
        other,
    )].1 == entries[key_index(entries, other)].1 by {
        let i = key_index(entries, other);
        assert(after[i].0 == other);
        lemma_key_index(after, i);
    }
}

} // verus!
