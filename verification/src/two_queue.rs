//! The layered cache: a 2Q cache built from three single-tier caches.
//!
//! A key first enters the `recent` tier. A second access promotes it to the
//! `frequent` tier. Under pressure the least recently used entry of `recent`
//! is demoted to the `ghost` tier, which remembers what was given up lately:
//! a put of a remembered key goes straight to `frequent`. Reads never see the
//! ghost tier.

use crate::callback::DefaultEvictCallback;
use crate::error::CacheError;
use crate::index::{FastIndex, KeyIndex};
use crate::laws::law_get_keeps_budget;
use crate::model::{
    has_key, lemma_after_get_keys, lemma_after_put_front, lemma_after_put_keys, lemma_drop_last_keys,
    lemma_without_key_keys, value_frame,
};
use crate::raw::{clone_keeps, lawful_keys, DefaultHashBuilder, RawLRU};
use crate::result::PutResult;
use crate::tiers::{
    empty_tiers, evicted_by, first_of, found_by_get, found_by_remove, lemma_any_frequent_value,
    lemma_tiers_get_frame, lemma_tiers_put_frame, lemma_tiers_remove_frame, outcome_of_put, promoted,
    space_evicts, tiers_after_get, tiers_after_put, tiers_after_remove, tiers_get_frame,
    tiers_put_frame, tiers_remove_frame, tiers_sound, with_frequent_value, with_space, Quotas, Tiers,
};
use std::collections::HashMap;
use std::hash::{BuildHasher, Hash};
use vstd::prelude::*;
use vstd::std_specs::hash::obeys_key_model;

verus! {

/// The report of a layered put that replaced the value `old`, if any, after
/// making room pushed out `spaced`, if anything, and the tier that took the
/// entry reported `inner`.
fn report<K, V>(old: Option<V>, spaced: Option<(K, V)>, inner: PutResult<K, V>) -> (r: PutResult<K, V>)
    ensures
        r == promoted(old, first_of(spaced, evicted_by(inner))),
{
    let pushed = match spaced {
        Some(e) => Some(e),
        None => match inner {
            PutResult::Evicted { key, value } => Some((key, value)),
            PutResult::EvictedAndUpdate { evicted, update } => Some(evicted),
            _ => None,
        },
    };
    match (old, pushed) {
        (Some(update), Some(evicted)) => PutResult::EvictedAndUpdate { evicted, update },
        (Some(update), None) => PutResult::Update(update),
        (None, Some(evicted)) => PutResult::Evicted { key: evicted.0, value: evicted.1 },
        (None, None) => PutResult::Put,
    }
}

/// A 2Q cache: at most `size` entries in its `recent` and `frequent` tiers
/// together, and a ghost tier of its own capacity beside them.
pub struct TwoQueueCache<K, V, I = HashMap<K, usize, DefaultHashBuilder>> {
    size: usize,
    recent_size: usize,
    recent: RawLRU<K, V, DefaultEvictCallback, I>,
    frequent: RawLRU<K, V, DefaultEvictCallback, I>,
    recent_evict: RawLRU<K, V, DefaultEvictCallback, I>,
}

impl<K: Clone, V, I: KeyIndex<K>> View for TwoQueueCache<K, V, I> {
    type V = Tiers<K, V>;

    closed spec fn view(&self) -> Tiers<K, V> {
        Tiers { recent: self.recent@, frequent: self.frequent@, ghosts: self.recent_evict@ }
    }
}

impl<K: Clone, V, I: KeyIndex<K>> TwoQueueCache<K, V, I> {
    /// The sizes the cache was built with.
    pub closed spec fn quotas(&self) -> Quotas {
        Quotas {
            size: self.size as nat,
            recent_size: self.recent_size as nat,
            ghost_size: self.recent_evict.spec_cap(),
        }
    }

    /// The three engines are sound and sized as the quotas say.
    pub closed spec fn inv(&self) -> bool {
        &&& self.recent.wf()
        &&& self.frequent.wf()
        &&& self.recent_evict.wf()
        &&& self.recent.spec_cap() == self.size
        &&& self.frequent.spec_cap() == self.size
    }

    /// The cache is sound: its engines are, and its tiers fit its quotas.
    pub open spec fn wf(&self) -> bool {
        &&& self.inv()
        &&& tiers_sound(self@, self.quotas())
    }

    /// The cache is sound and empty, and sized as asked: what a constructor
    /// returns.
    pub open spec fn is_fresh(&self, size: usize, recent_size: usize, ghost_size: usize) -> bool {
        &&& self.wf()
        &&& self@ == empty_tiers::<K, V>()
        &&& self.quotas() == (Quotas {
            size: size as nat,
            recent_size: recent_size as nat,
            ghost_size: ghost_size as nat,
        })
    }

    /// A cache of three engines, if all three could be built: else the
    /// error of the ghost tier, which is the one that can fail when the
    /// budget is not zero.
    fn assemble(
        size: usize,
        recent_size: usize,
        ghost_size: usize,
        recent: Result<RawLRU<K, V, DefaultEvictCallback, I>, CacheError>,
        frequent: Result<RawLRU<K, V, DefaultEvictCallback, I>, CacheError>,
        recent_evict: Result<RawLRU<K, V, DefaultEvictCallback, I>, CacheError>,
    ) -> (r: Result<Self, CacheError>)
        requires
            size > 0,
            recent matches Ok(tier) && tier.is_fresh(size),
            frequent matches Ok(tier) && tier.is_fresh(size),
            ghost_size > 0 <==> recent_evict is Ok,
            recent_evict matches Err(e) ==> e == CacheError::InvalidSize(0),
            recent_evict matches Ok(tier) ==> tier.is_fresh(ghost_size),
        ensures
            ghost_size > 0 <==> r is Ok,
            r matches Err(e) ==> e == CacheError::InvalidSize(0),
            r matches Ok(cache) ==> cache.is_fresh(size, recent_size, ghost_size),
    {
        match (recent, frequent, recent_evict) {
            (Ok(recent), Ok(frequent), Ok(recent_evict)) => {
                Ok(TwoQueueCache { size, recent_size, recent, frequent, recent_evict })
            },
            (_, _, Err(e)) => Err(e),
            (Err(e), _, _) => Err(e),
            (_, Err(e), _) => Err(e),
        }
    }

    /// Makes room for one more entry in `recent` or `frequent`.
    ///
    /// Nothing happens while the two hold fewer entries than the budget.
    /// Otherwise `recent` gives its least recently used entry to the ghost
    /// tier, if it is over its quota, or at its quota and `from_ghost` is not
    /// set; else `frequent` gives up its least recently used entry, which is
    /// returned.
    fn ensure_space(&mut self, from_ghost: bool) -> (evicted: Option<(K, V)>)
        requires
            old(self).wf(),
        ensures
            final(self).wf(),
            final(self).quotas() == old(self).quotas(),
            final(self)@ == with_space(old(self)@, old(self).quotas(), from_ghost),
            evicted == space_evicts(old(self)@, old(self).quotas(), from_ghost),
            old(self).quotas().recent_size < old(self).quotas().size ==> {
                final(self)@.recent.len() + final(self)@.frequent.len() < old(self).quotas().size
            },
    {
        let recent_len = self.recent.len();
        let freq_len = self.frequent.len();
        if recent_len < self.size && freq_len < self.size - recent_len {
            return None;
        }
        let over_quota = recent_len > self.recent_size || (recent_len == self.recent_size && !from_ghost);
        if recent_len > 0 && over_quota {
            proof {
                lemma_drop_last_keys(self.recent@);
                lemma_after_put_keys(
                    self.recent_evict@,
                    self.recent_evict.spec_cap(),
                    self.recent@.last().0,
                    self.recent@.last().1,
                );
            }
            match self.recent.remove_lru_in() {
                Some(e) => {
                    self.recent_evict.put(e.0, e.1);
                },
                None => {},
            }
            return None;
        }
        proof {
            if self.frequent@.len() > 0 {
                lemma_drop_last_keys(self.frequent@);
            }
        }
        self.frequent.remove_lru()
    }

    /// Stores `v` under `k`.
    ///
    /// A key in `frequent` is updated there. A key in `recent` moves to
    /// `frequent`. A key that the ghost tier remembers goes to `frequent`
    /// once room was made; any other key goes to `recent` once room was made.
    pub fn put(&mut self, k: K, v: V) -> (r: PutResult<K, V>)
        requires
            old(self).wf(),
        ensures
            final(self).wf(),
            final(self).quotas() == old(self).quotas(),
            final(self)@ == tiers_after_put(old(self)@, old(self).quotas(), k, v),
            r == outcome_of_put(old(self)@, old(self).quotas(), k),
            tiers_put_frame(old(self)@, final(self)@, old(self).quotas(), k, v),
    {
        proof {
            lemma_tiers_put_frame(self@, self.quotas(), k, v);
        }
        if self.frequent.contains(&k) {
            proof {
                lemma_after_put_keys(self.frequent@, self.frequent.spec_cap(), k, v);
            }
            return self.frequent.put(k, v);
        }
        if self.recent.contains(&k) {
            proof {
                lemma_without_key_keys(self.recent@, k);
                lemma_after_put_keys(self.frequent@, self.frequent.spec_cap(), k, v);
            }
            match self.recent.remove_and_return_ent(&k) {
                Some(e) => {
                    let inner = self.frequent.put(e.0, v);
                    return report(Some(e.1), None, inner);
                },
                None => {
                    return PutResult::Put;
                },
            }
        }
        if self.recent_evict.contains(&k) {
            let spaced = self.ensure_space(true);
            proof {
                lemma_without_key_keys(self.recent_evict@, k);
                lemma_after_put_keys(self.frequent@, self.frequent.spec_cap(), k, v);
                assert(!has_key(self.frequent@, k));
            }
            match self.recent_evict.remove_and_return_ent(&k) {
                Some(e) => {
                    let inner = self.frequent.put(e.0, v);
                    return report(Some(e.1), spaced, inner);
                },
                None => {
                    let inner = self.frequent.put(k, v);
                    return report(None, spaced, inner);
                },
            }
        }
        let spaced = self.ensure_space(false);
        proof {
            lemma_after_put_keys(self.recent@, self.recent.spec_cap(), k, v);
            assert(!has_key(self.recent@, k));
        }
        let inner = self.recent.put(k, v);
        report(None, spaced, inner)
    }

    /// The value stored under `k` in `frequent` or `recent`; a hit in
    /// `recent` promotes the entry to `frequent`. What the ghost tier
    /// remembers is not found.
    pub fn get(&mut self, k: &K) -> (r: Option<&V>)
        requires
            old(self).wf(),
        ensures
            final(self).wf(),
            final(self).quotas() == old(self).quotas(),
            final(self)@ == tiers_after_get(old(self)@, old(self).quotas(), *k),
            r matches Some(v) ==> found_by_get(old(self)@, *k) == Some(*v),
            r is None ==> found_by_get(old(self)@, *k) is None,
            tiers_get_frame(old(self)@, final(self)@, old(self).quotas(), *k),
    {
        proof {
            lemma_tiers_get_frame(self@, self.quotas(), *k);
        }
        if self.frequent.contains(k) {
            proof {
                lemma_after_get_keys(self.frequent@, *k);
            }
            return self.frequent.get(k);
        }
        proof {
            lemma_without_key_keys(self.recent@, *k);
        }
        match self.recent.remove_and_return_ent(k) {
            None => None,
            Some(e) => {
                proof {
                    lemma_after_put_keys(self.frequent@, self.frequent.spec_cap(), e.0, e.1);
                }
                let ghost before = self.frequent@;
                self.frequent.put(e.0, e.1);
                proof {
                    lemma_after_put_front(before, self.frequent.spec_cap(), e.0, e.1);
                }
                self.frequent.peek(k)
            },
        }
    }

    /// The value stored under `k` in `frequent` or `recent`, to read or to
    /// change; a hit in `recent` promotes the entry to `frequent`. What the
    /// ghost tier remembers is not found.
    pub fn get_mut(&mut self, k: &K) -> (r: Option<&mut V>)
        requires
            old(self).wf(),
        ensures
            final(self).wf(),
            final(self).quotas() == old(self).quotas(),
            r is Some <==> found_by_get(old(self)@, *k) is Some,
            r matches Some(v) ==> {
                &&& found_by_get(old(self)@, *k) == Some(*v)
                &&& final(self)@ == with_frequent_value(
                    tiers_after_get(old(self)@, old(self).quotas(), *k),
                    0,
                    *k,
                    *final(v),
                )
                &&& value_frame(
                    tiers_after_get(old(self)@, old(self).quotas(), *k).frequent,
                    final(self)@.frequent,
                    *k,
                )
            },
            r is None ==> final(self)@ == old(self)@,
            tiers_get_frame(
                old(self)@,
                tiers_after_get(old(self)@, old(self).quotas(), *k),
                old(self).quotas(),
                *k,
            ),
    {
        proof {
            lemma_tiers_get_frame(self@, self.quotas(), *k);
        }
        if self.frequent.contains(k) {
            proof {
                lemma_after_get_keys(self.frequent@, *k);
                law_get_keeps_budget(self@, self.quotas(), *k);
                lemma_any_frequent_value(tiers_after_get(self@, self.quotas(), *k), self.quotas(), 0, *k);
            }
            return self.frequent.get_mut(k);
        }
        proof {
            lemma_without_key_keys(self.recent@, *k);
        }
        match self.recent.remove_and_return_ent(k) {
            None => None,
            Some(e) => {
                proof {
                    lemma_after_put_keys(self.frequent@, self.frequent.spec_cap(), e.0, e.1);
                }
                let ghost before = self.frequent@;
                self.frequent.put(e.0, e.1);
                proof {
                    lemma_after_put_front(before, self.frequent.spec_cap(), e.0, e.1);
                    lemma_any_frequent_value(self@, self.quotas(), 0, *k);
                }
                self.frequent.peek_mut(k)
            },
        }
    }

    /// Removes `k` from the first of `frequent`, `recent` and the ghost tier
    /// that holds it, and returns the value it had there.
    pub fn remove(&mut self, k: &K) -> (r: Option<V>)
        requires
            old(self).wf(),
        ensures
            final(self).wf(),
            final(self).quotas() == old(self).quotas(),
            final(self)@ == tiers_after_remove(old(self)@, *k),
            r == found_by_remove(old(self)@, *k),
            tiers_remove_frame(old(self)@, final(self)@, *k),
    {
        proof {
            lemma_tiers_remove_frame(self@, self.quotas(), *k);
        }
        proof {
            lemma_without_key_keys(self.frequent@, *k);
            lemma_without_key_keys(self.recent@, *k);
            lemma_without_key_keys(self.recent_evict@, *k);
        }
        match self.frequent.remove(k) {
            Some(v) => Some(v),
            None => match self.recent.remove(k) {
                Some(v) => Some(v),
                None => self.recent_evict.remove(k),
            },
        }
    }

    /// The budget that `recent` and `frequent` share.
    pub fn size(&self) -> (n: usize)
        ensures
            n == self.quotas().size,
    {
        self.size
    }

    /// The tier of the keys seen once.
    pub fn recent(&self) -> (tier: &RawLRU<K, V, DefaultEvictCallback, I>)
        requires
            self.wf(),
        ensures
            tier.wf(),
            tier@ == self@.recent,
            tier.spec_cap() == self.quotas().size,
    {
        &self.recent
    }

    /// The tier of the keys seen again.
    pub fn frequent(&self) -> (tier: &RawLRU<K, V, DefaultEvictCallback, I>)
        requires
            self.wf(),
        ensures
            tier.wf(),
            tier@ == self@.frequent,
            tier.spec_cap() == self.quotas().size,
    {
        &self.frequent
    }

    /// The tier that remembers what `recent` gave up.
    pub fn ghosts(&self) -> (tier: &RawLRU<K, V, DefaultEvictCallback, I>)
        requires
            self.wf(),
        ensures
            tier.wf(),
            tier@ == self@.ghosts,
            tier.spec_cap() == self.quotas().ghost_size,
    {
        &self.recent_evict
    }
}

impl<K: Hash + Eq + Clone, V, S: BuildHasher + Clone> TwoQueueCache<K, V, HashMap<K, usize, S>> {
    /// An empty cache with a budget of `size` entries, of which `recent` may
    /// keep `recent_size` under pressure, and a ghost tier of `ghost_size`
    /// entries, all three hashing with clones of `hasher`.
    ///
    /// Neither the budget nor the ghost tier may be zero.
    pub fn with_sizes_and_hasher(size: usize, recent_size: usize, ghost_size: usize, hasher: S)
        -> (r: Result<Self, CacheError>)
        requires
            lawful_keys::<K, HashMap<K, usize, S>>(),
        ensures
            size > 0 && ghost_size > 0 <==> r is Ok,
            r matches Err(e) ==> e == CacheError::InvalidSize(0),
            r matches Ok(cache) ==> cache.is_fresh(size, recent_size, ghost_size),
    {
        if size == 0 {
            return Err(CacheError::InvalidSize(size));
        }
        let recent = RawLRU::with_hasher(size, hasher.clone());
        let frequent = RawLRU::with_hasher(size, hasher.clone());
        let recent_evict = RawLRU::with_hasher(ghost_size, hasher);
        Self::assemble(size, recent_size, ghost_size, recent, frequent, recent_evict)
    }
}

impl<K: Hash + Eq + Clone, V> TwoQueueCache<K, V> {
    /// An empty cache with a budget of `size` entries, of which `recent` may
    /// keep `recent_size` under pressure, and a ghost tier of `ghost_size`
    /// entries. Neither the budget nor the ghost tier may be zero.
    pub fn with_sizes(size: usize, recent_size: usize, ghost_size: usize) -> (r: Result<Self, CacheError>)
        requires
            obeys_key_model::<K>(),
            clone_keeps::<K>(),
        ensures
            size > 0 && ghost_size > 0 <==> r is Ok,
            r matches Err(e) ==> e == CacheError::InvalidSize(0),
            r matches Ok(cache) ==> cache.is_fresh(size, recent_size, ghost_size),
    {
        if size == 0 {
            return Err(CacheError::InvalidSize(size));
        }
        let recent = RawLRU::new(size);
        let frequent = RawLRU::new(size);
        let recent_evict = RawLRU::new(ghost_size);
        Self::assemble(size, recent_size, ghost_size, recent, frequent, recent_evict)
    }

    /// An empty cache with a budget of `size` entries: a quarter of it is the
    /// quota of `recent`, and the ghost tier holds half as many entries as the
    /// budget, both rounded down. A budget below two is refused, since it
    /// leaves the ghost tier no room.
    pub fn new(size: usize) -> (r: Result<Self, CacheError>)
        requires
            obeys_key_model::<K>(),
            clone_keeps::<K>(),
        ensures
            size >= 2 <==> r is Ok,
            r matches Err(e) ==> e == CacheError::InvalidSize(0),
            r matches Ok(cache) ==> cache.is_fresh(size, size / 4, size / 2),
    {
        Self::with_sizes(size, size / 4, size / 2)
    }
}

impl<V> TwoQueueCache<u64, V, FastIndex> {
    /// An empty cache with `u64` keys indexed by hashbrown's hash map: a
    /// budget of `size` entries, of which `recent` may keep `recent_size`
    /// under pressure, and a ghost tier of `ghost_size` entries. Neither the
    /// budget nor the ghost tier may be zero.
    pub fn on_hashbrown_with_sizes(size: usize, recent_size: usize, ghost_size: usize)
        -> (r: Result<Self, CacheError>)
        ensures
            size > 0 && ghost_size > 0 <==> r is Ok,
            r matches Err(e) ==> e == CacheError::InvalidSize(0),
            r matches Ok(cache) ==> cache.is_fresh(size, recent_size, ghost_size),
    {
        if size == 0 {
            return Err(CacheError::InvalidSize(size));
        }
        let recent = RawLRU::on_hashbrown(size);
        let frequent = RawLRU::on_hashbrown(size);
        let recent_evict = RawLRU::on_hashbrown(ghost_size);
        Self::assemble(size, recent_size, ghost_size, recent, frequent, recent_evict)
    }

    /// An empty cache with `u64` keys indexed by hashbrown's hash map, sized
    /// as `new` sizes it. A budget below two is refused.
    pub fn on_hashbrown(size: usize) -> (r: Result<Self, CacheError>)
        ensures
            size >= 2 <==> r is Ok,
            r matches Err(e) ==> e == CacheError::InvalidSize(0),
            r matches Ok(cache) ==> cache.is_fresh(size, size / 4, size / 2),
    {
        Self::on_hashbrown_with_sizes(size, size / 4, size / 2)
    }
}

} // verus!
