//! The key index: from the key of each entry to the arena slot that holds it.
//!
//! A cache works on any index that keeps this contract. Two are provided:
//! `std`'s hash map, for any key and hasher, and hashbrown's hash map, for
//! `u64` keys.

use std::collections::HashMap;
use std::hash::{BuildHasher, Hash};
use vstd::prelude::*;
use vstd::std_specs::hash::{builds_valid_hashers, obeys_key_model};

verus! {

/// A map from keys to arena slots.
pub trait KeyIndex<K>: Sized {
    /// What the index holds.
    spec fn entries(&self) -> Map<K, usize>;

    /// What the index asks of its keys and of its hashing, to be the map that
    /// `entries` says it is.
    spec fn lawful() -> bool;

    /// The slot stored under `k`, if there is one.
    fn find(&self, k: &K) -> (r: Option<usize>)
        requires
            Self::lawful(),
        ensures
            r == (if self.entries().contains_key(*k) {
                Some(self.entries()[*k])
            } else {
                None
            }),
    ;

    /// Stores `slot` under `k`, in place of what was stored under it.
    fn store(&mut self, k: K, slot: usize)
        requires
            Self::lawful(),
        ensures
            final(self).entries() == old(self).entries().insert(k, slot),
    ;

    /// Forgets `k`.
    fn forget(&mut self, k: &K)
        requires
            Self::lawful(),
        ensures
            final(self).entries() == old(self).entries().remove(*k),
    ;

    /// Gives back the memory that the index does not need.
    fn shrink(&mut self)
        ensures
            final(self).entries() == old(self).entries(),
    ;
}

/// An empty index that hashes with `hasher`.
///
/// Calls `std::collections::HashMap::with_hasher`, which is documented to
/// create an empty map around the given hash builder, without allocating.
#[verifier::external_body]
pub(crate) fn empty_index<K, S>(hasher: S) -> (index: HashMap<K, usize, S>)
    ensures
        forall|k: K| !index@.contains_key(k),
{
    HashMap::with_hasher(hasher)
}

/// Lets the index give back the memory it does not need.
///
/// Calls `std::collections::HashMap::shrink_to_fit`, which is documented to
/// shrink the capacity of the map while keeping what it holds.
#[verifier::external_body]
fn shrink_index<K: Hash + Eq, S: BuildHasher>(index: &mut HashMap<K, usize, S>)
    ensures
        final(index)@ == old(index)@,
{
    index.shrink_to_fit();
}

impl<K: Hash + Eq, S: BuildHasher> KeyIndex<K> for HashMap<K, usize, S> {
    open spec fn entries(&self) -> Map<K, usize> {
        self@
    }

    /// Hashing is deterministic and `==` on keys is equality.
    open spec fn lawful() -> bool {
        obeys_key_model::<K>() && builds_valid_hashers::<S>()
    }

    fn find(&self, k: &K) -> (r: Option<usize>) {
        match self.get(k) {
            Some(slot) => Some(*slot),
            None => None,
        }
    }

    fn store(&mut self, k: K, slot: usize) {
        self.insert(k, slot);
    }

    fn forget(&mut self, k: &K) {
        self.remove(k);
    }

    fn shrink(&mut self) {
        shrink_index(self);
    }
}

/// A key index on hashbrown's hash map, for `u64` keys.
///
/// Holds a `hashbrown::HashMap<u64, usize>`. What it holds is known only
/// through `fast_entries` and the functions below, each of which states of
/// one function of hashbrown what its documentation says.
#[verifier::external_body]
pub struct FastIndex {
    map: hashbrown::HashMap<u64, usize>,
}

/// What a hashbrown index holds.
pub uninterp spec fn fast_entries(index: FastIndex) -> Map<u64, usize>;

/// An empty hashbrown index.
///
/// Calls `hashbrown::HashMap::new`, which creates an empty map with hashbrown's
/// default hasher, without allocating.
#[verifier::external_body]
fn fast_new() -> (index: FastIndex)
    ensures
        forall|k: u64| !fast_entries(index).contains_key(k),
{
    FastIndex { map: hashbrown::HashMap::new() }
}

/// The slot stored under `k`.
///
/// Calls `hashbrown::HashMap::get`, which returns the value stored under a key
/// that the map holds, and nothing for any other key.
#[verifier::external_body]
fn fast_find(index: &FastIndex, k: u64) -> (r: Option<usize>)
    ensures
        r is Some <==> fast_entries(*index).contains_key(k),
        r matches Some(slot) ==> slot == fast_entries(*index)[k],
{
    index.map.get(&k).copied()
}

/// Stores `slot` under `k`.
///
/// Calls `hashbrown::HashMap::insert`, which stores the value under the key,
/// in place of a value already stored under it, and keeps all other keys.
#[verifier::external_body]
fn fast_store(index: &mut FastIndex, k: u64, slot: usize)
    ensures
        fast_entries(*final(index)) == fast_entries(*old(index)).insert(k, slot),
{
    index.map.insert(k, slot);
}

/// Forgets `k`.
///
/// Calls `hashbrown::HashMap::remove`, which takes the key out of the map if
/// it is there, and keeps all other keys.
#[verifier::external_body]
fn fast_forget(index: &mut FastIndex, k: u64)
    ensures
        fast_entries(*final(index)) == fast_entries(*old(index)).remove(k),
{
    index.map.remove(&k);
}

/// Lets the index give back the memory it does not need.
///
/// Calls `hashbrown::HashMap::shrink_to_fit`, which shrinks the capacity of
/// the map and keeps what it holds.
#[verifier::external_body]
fn fast_shrink(index: &mut FastIndex)
    ensures
        fast_entries(*final(index)) == fast_entries(*old(index)),
{
    index.map.shrink_to_fit();
}

impl FastIndex {
    /// An empty index.
    pub fn new() -> (index: Self)
        ensures
            index.entries() == Map::<u64, usize>::empty(),
    {
        let index = fast_new();
        assert(fast_entries(index) =~= Map::<u64, usize>::empty());
        index
    }
}

impl KeyIndex<u64> for FastIndex {
    open spec fn entries(&self) -> Map<u64, usize> {
        fast_entries(*self)
    }

    /// `u64` keys hash and compare as `std` defines, whatever the seed of the
    /// hasher: nothing is asked.
    open spec fn lawful() -> bool {
        true
    }

    fn find(&self, k: &u64) -> (r: Option<usize>) {
        fast_find(self, *k)
    }

    fn store(&mut self, k: u64, slot: usize) {
        fast_store(self, k, slot);
    }

    fn forget(&mut self, k: &u64) {
        fast_forget(self, *k);
    }

    fn shrink(&mut self) {
        fast_shrink(self);
    }
}

} // verus!
