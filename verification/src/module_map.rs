//! An insertion-ordered map keyed by module handles.
//!
//! The keys live in an `indexmap::IndexSet`, which finds a key in constant
//! time and keeps the order in which keys first arrived; the values live in a
//! vector that runs parallel to it. What the set does is trusted; everything
//! the map does on top of it is verified.

use crate::ordered::{
    distinct_keys, has_key, insert_entry, lemma_position_of, lemma_position_unique, lookup,
};
use indexmap::IndexSet;
use std::hash::RandomState;
use vstd::prelude::*;

verus! {

/// `indexmap::IndexSet`, a hash set that keeps its items in insertion order.
/// The verifier sees nothing inside it.
#[verifier::external_type_specification]
#[verifier::external_body]
#[verifier::reject_recursive_types(T)]
#[verifier::reject_recursive_types(S)]
pub struct ExIndexSet<T, S>(IndexSet<T, S>);

/// The keys that an index set holds, in the order of their first insertion.
pub uninterp spec fn index_set_keys(set: IndexSet<u64, RandomState>) -> Seq<u64>;

/// `IndexSet::new`: the new set holds no key.
#[verifier::external_body]
fn key_set_new() -> (set: IndexSet<u64, RandomState>)
    ensures
        index_set_keys(set) == Seq::<u64>::empty(),
{
    IndexSet::new()
}

/// `IndexSet::insert_full`: a key that the set already holds stays where it
/// is, and the call reports its index and `false`; a new key goes to the end,
/// and the call reports that index and `true`.
#[verifier::external_body]
fn key_set_insert_full(set: &mut IndexSet<u64, RandomState>, key: u64) -> (r: (usize, bool))
    ensures
        index_set_keys(*old(set)).contains(key) ==> {
            &&& !r.1
            &&& r.0 < index_set_keys(*old(set)).len()
            &&& index_set_keys(*old(set))[r.0 as int] == key
            &&& index_set_keys(*final(set)) == index_set_keys(*old(set))
        },
        !index_set_keys(*old(set)).contains(key) ==> {
            &&& r.1
            &&& r.0 == index_set_keys(*old(set)).len()
            &&& index_set_keys(*final(set)) == index_set_keys(*old(set)).push(key)
        },
{
    set.insert_full(key)
}

/// `IndexSet::get_index_of`: the index of a key that the set holds, `None`
/// for one that it does not hold.
#[verifier::external_body]
fn key_set_get_index_of(set: &IndexSet<u64, RandomState>, key: u64) -> (r: Option<usize>)
    ensures
        match r {
            Some(i) => i < index_set_keys(*set).len() && index_set_keys(*set)[i as int] == key,
            None => !index_set_keys(*set).contains(key),
        },
{
    set.get_index_of(&key)
}

/// `IndexSet::get_index`: the key at an index below the length, `None` at any
/// other index.
#[verifier::external_body]
fn key_set_get_index(set: &IndexSet<u64, RandomState>, index: usize) -> (r: Option<u64>)
    ensures
        r == if index < index_set_keys(*set).len() {
            Some(index_set_keys(*set)[index as int])
        } else {
            None
        },
{
    set.get_index(index).copied()
}

/// A map from module handles to values that remembers the order in which
/// its keys first arrived.
pub struct ModuleMap<V> {
    keys: IndexSet<u64, RandomState>,
    values: Vec<V>,
}

impl<V> View for ModuleMap<V> {
    type V = Seq<(u64, V)>;

    closed spec fn view(&self) -> Seq<(u64, V)> {
        Seq::new(self.values@.len(), |i: int| (index_set_keys(self.keys)[i], self.values@[i]))
    }
}

impl<V> ModuleMap<V> {
    #[verifier::type_invariant]
    spec fn well_formed(self) -> bool {
        &&& index_set_keys(self.keys).len() == self.values@.len()
        &&& index_set_keys(self.keys).no_duplicates()
    }

    /// An empty map.
    pub fn new() -> (map: Self)
        ensures
            map@ == Seq::<(u64, V)>::empty(),
    {
        ModuleMap { keys: key_set_new(), values: Vec::new() }
    }

    /// The number of entries.
    pub fn len(&self) -> (n: usize)
        ensures
            n == self@.len(),
            distinct_keys(self@),
    {
        proof {
            use_type_invariant(self);
        }
        self.values.len()
    }

    /// The value stored under `key`, if the map has the key.
    pub fn get(&self, key: u64) -> (found: Option<&V>)
        ensures
            match found {
                Some(value) => lookup(self@, key) == Some(*value),
                None => lookup(self@, key) is None,
            },
    {
        proof {
            use_type_invariant(self);
            lemma_position_of(self@, key);
        }
        match key_set_get_index_of(&self.keys, key) {
            Some(index) => {
                proof {
                    assert(self@[index as int].0 == key);
                    lemma_position_unique(self@, key, index as int);
                }
                Some(&self.values[index])
            },
            None => {
                proof {
                    if has_key(self@, key) {
                        let w = choose|i: int|
                            0 <= i < self@.len() && (#[trigger] self@[i]).0 == key;
                        assert(index_set_keys(self.keys)[w] == key);
                    }
                }
                None
            },
        }
    }

    /// The entry at `index` in insertion order, `None` from the length on.
    pub fn get_index(&self, index: usize) -> (entry: Option<(u64, &V)>)
        ensures
            match entry {
                Some((key, value)) => index < self@.len() && self@[index as int] == (key, *value),
                None => index >= self@.len(),
            },
    {
        proof {
            use_type_invariant(self);
        }
        match key_set_get_index(&self.keys, index) {
            Some(key) => Some((key, &self.values[index])),
            None => None,
        }
    }

    /// Sets `key` to `value` and returns the value that the key had before.
    pub fn insert(&mut self, key: u64, value: V) -> (previous: Option<V>)
        ensures
            final(self)@ == insert_entry(old(self)@, key, value),
            previous == lookup(old(self)@, key),
    {
        // The set may unwind while it grows, so it is updated outside `self`.
        let mut taken = ModuleMap::new();
        std::mem::swap(self, &mut taken);
        proof {
            use_type_invariant(&taken);
            lemma_position_of(taken@, key);
        }
        let ghost before = taken@;
        let ModuleMap { mut keys, mut values } = taken;
        let ghost keys_before = index_set_keys(keys);
        let (index, fresh) = key_set_insert_full(&mut keys, key);
        let previous = if fresh {
            values.push(value);
            proof {
                assert(!has_key(before, key)) by {
                    if has_key(before, key) {
                        let w = choose|i: int|
                            0 <= i < before.len() && (#[trigger] before[i]).0 == key;
                        assert(keys_before[w] == key);
                    }
                }
            }
            None
        } else {
            proof {
                assert(before[index as int].0 == key);
                lemma_position_unique(before, key, index as int);
            }
            let mut slot = value;
            std::mem::swap(&mut values[index], &mut slot);
            Some(slot)
        };
        *self = ModuleMap { keys, values };
        proof {
            if fresh {
                assert(self@ =~= before.push((key, value)));
            } else {
                assert(self@ =~= before.update(index as int, (key, value)));
            }
        }
        previous
    }
}

} // verus!
