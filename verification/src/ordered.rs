//! Association lists that keep the order in which their keys first arrived.
//!
//! Setting a key that is already there replaces its value in place; setting
//! a new key appends an entry.

use vstd::prelude::*;

verus! {

/// Whether no key occurs twice among the entries.
pub open spec fn distinct_keys<K, V>(entries: Seq<(K, V)>) -> bool {
    forall|i: int, j: int|
        0 <= i < j < entries.len() ==> (#[trigger] entries[i]).0 != (#[trigger] entries[j]).0
}

/// Whether some entry has the key.
pub open spec fn has_key<K, V>(entries: Seq<(K, V)>, key: K) -> bool {
    exists|i: int| 0 <= i < entries.len() && (#[trigger] entries[i]).0 == key
}

/// The index of the first entry with the key; the length where none has it.
pub open spec fn position_of<K, V>(entries: Seq<(K, V)>, key: K) -> int
    decreases entries.len(),
{
    if entries.len() == 0 {
        0
    } else if entries[0].0 == key {
        0
    } else {
        1 + position_of(entries.drop_first(), key)
    }
}

/// The value stored under the key, if any.
pub open spec fn lookup<K, V>(entries: Seq<(K, V)>, key: K) -> Option<V> {
    if has_key(entries, key) {
        Some(entries[position_of(entries, key)].1)
    } else {
        None
    }
}

/// The entries after `key` is set to `value`: an entry that has the key keeps
/// its place and takes the new value, and a new key goes to the end.
pub open spec fn insert_entry<K, V>(entries: Seq<(K, V)>, key: K, value: V) -> Seq<(K, V)> {
    if has_key(entries, key) {
        entries.update(position_of(entries, key), (key, value))
    } else {
        entries.push((key, value))
    }
}

/// `position_of` finds the first entry with the key, and stays within the
/// length exactly when some entry has it.
pub proof fn lemma_position_of<K, V>(entries: Seq<(K, V)>, key: K)
    ensures
        0 <= position_of(entries, key) <= entries.len(),
        has_key(entries, key) <==> position_of(entries, key) < entries.len(),
        has_key(entries, key) ==> entries[position_of(entries, key)].0 == key,
        forall|i: int| 0 <= i < position_of(entries, key) ==> (#[trigger] entries[i]).0 != key,
    decreases entries.len(),
{
    if entries.len() > 0 {
        let rest = entries.drop_first();
        lemma_position_of(rest, key);
        if entries[0].0 != key {
            let p = position_of(rest, key);
            assert forall|i: int| 0 <= i < 1 + p implies (#[trigger] entries[i]).0 != key by {
                if i > 0 {
                    assert(entries[i] == rest[i - 1]);
                }
            }
            if has_key(entries, key) {
                let w = choose|i: int| 0 <= i < entries.len() && (#[trigger] entries[i]).0 == key;
                assert(rest[w - 1] == entries[w]);
                assert(has_key(rest, key));
                assert(entries[1 + p] == rest[p]);
            }
            if p < rest.len() {
                assert(entries[1 + p] == rest[p]);
            }
        }
    }
}

/// Among distinct keys, the entry that has the key stands at `position_of`.
pub proof fn lemma_position_unique<K, V>(entries: Seq<(K, V)>, key: K, i: int)
    requires
        distinct_keys(entries),
        0 <= i < entries.len(),
        entries[i].0 == key,
    ensures
        position_of(entries, key) == i,
{
    lemma_position_of(entries, key);
}

/// Setting a key keeps the keys distinct.
pub proof fn lemma_insert_keeps_distinct<K, V>(entries: Seq<(K, V)>, key: K, value: V)
    requires
        distinct_keys(entries),
    ensures
        distinct_keys(insert_entry(entries, key, value)),
        has_key(insert_entry(entries, key, value), key),
        lookup(insert_entry(entries, key, value), key) == Some(value),
{
    lemma_position_of(entries, key);
    let after = insert_entry(entries, key, value);
    if has_key(entries, key) {
        let p = position_of(entries, key);
        assert(after[p].0 == key);
        assert forall|i: int, j: int| 0 <= i < j < after.len() implies (#[trigger] after[i]).0 != (
        #[trigger] after[j]).0 by {
            assert(after[i].0 == entries[i].0);
            assert(after[j].0 == entries[j].0);
        }
        lemma_position_unique(after, key, p);
    } else {
        let n = entries.len() as int;
        assert(after[n].0 == key);
        assert forall|i: int, j: int| 0 <= i < j < after.len() implies (#[trigger] after[i]).0 != (
        #[trigger] after[j]).0 by {
            assert(after[i] == entries[i]);
            if j < n {
                assert(after[j] == entries[j]);
            }
        }
        lemma_position_unique(after, key, n);
    }
}

/// The entries with each value replaced by what `f` makes of it.
pub open spec fn map_entries<K, V, W>(entries: Seq<(K, V)>, f: spec_fn(V) -> W) -> Seq<(K, W)> {
    entries.map_values(|entry: (K, V)| (entry.0, f(entry.1)))
}

/// Replacing the values keeps the keys where they are: a key is found in
/// the replaced entries exactly when it was found before, with what `f`
/// makes of its value.
pub proof fn lemma_map_keeps_keys<K, V, W>(entries: Seq<(K, V)>, key: K, f: spec_fn(V) -> W)
    ensures
        has_key(map_entries(entries, f), key) == has_key(entries, key),
        position_of(map_entries(entries, f), key) == position_of(entries, key),
        lookup(map_entries(entries, f), key) == match lookup(entries, key) {
            Some(held) => Some(f(held)),
            None => None,
        },
{
    let mapped = map_entries(entries, f);
    lemma_position_of(entries, key);
    lemma_position_of(mapped, key);
    let p = position_of(entries, key);
    let q = position_of(mapped, key);
    if p < entries.len() {
        assert(mapped[p].0 == key);
    }
    if q < mapped.len() {
        assert(entries[q].0 == mapped[q].0);
    }
    if q < p {
        assert(entries[q].0 != key);
    }
    if p < q {
        assert(mapped[p].0 != key);
    }
}

/// Setting a key and then replacing the values is the same as replacing the
/// values and then setting the key to the replaced value.
pub proof fn lemma_insert_then_map<K, V, W>(
    entries: Seq<(K, V)>,
    key: K,
    value: V,
    f: spec_fn(V) -> W,
)
    ensures
        map_entries(insert_entry(entries, key, value), f) == insert_entry(
            map_entries(entries, f),
            key,
            f(value),
        ),
{
    lemma_map_keeps_keys(entries, key, f);
    lemma_position_of(entries, key);
    assert(map_entries(insert_entry(entries, key, value), f) =~= insert_entry(
        map_entries(entries, f),
        key,
        f(value),
    ));
}

/// After a key is set, every entry is the new one or an old one at its old
/// place, the new entry stands at the key's place, and the keys are the old
/// keys and the key that was set.
pub proof fn lemma_insert_members<K, V>(entries: Seq<(K, V)>, key: K, value: V)
    ensures
        forall|i: int|
            0 <= i < insert_entry(entries, key, value).len() ==> {
                ||| #[trigger] insert_entry(entries, key, value)[i] == (key, value)
                ||| i < entries.len() && insert_entry(entries, key, value)[i] == entries[i]
            },
        0 <= position_of(entries, key) < insert_entry(entries, key, value).len(),
        insert_entry(entries, key, value)[position_of(entries, key)] == (key, value),
        forall|other: K|
            has_key(insert_entry(entries, key, value), other) <==> other == key || has_key(
                entries,
                other,
            ),
{
    lemma_position_of(entries, key);
    let after = insert_entry(entries, key, value);
    let p = position_of(entries, key);
    assert(after[p] == (key, value));
    assert forall|other: K| has_key(after, other) <==> other == key || has_key(
        entries,
        other,
    ) by {
        if has_key(after, other) {
            let w = choose|i: int| 0 <= i < after.len() && (#[trigger] after[i]).0 == other;
            if other != key {
                assert(entries[w].0 == other);
            }
        }
        if has_key(entries, other) {
            let w = choose|i: int| 0 <= i < entries.len() && (#[trigger] entries[i]).0 == other;
            if other != key {
                assert(after[w].0 == other);
            }
        }
        if other == key {
            assert(after[p].0 == key);
        }
    }
}

} // verus!
