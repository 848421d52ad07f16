//! The single-tier cache: a least-recently-used cache of fixed capacity.

use crate::callback::{DefaultEvictCallback, OnEvictCallback};
use crate::error::{check_size, CacheError};
use crate::index::{empty_index, FastIndex, KeyIndex};
use crate::iter::{keys_of, Iter, IterMut, Keys};
use crate::list::{
    attach, detach, entry_mut, lemma_cons_members, lemma_remove_members, linked, node_at, revalued,
    value_mut, EntryNode, HEAD, TAIL,
};
use crate::model::{
    after_get, after_put, carried_over, distinct_keys, entry_of, excess, has_key, key_index,
    lemma_get_frame, lemma_key_index_unique, lemma_lru_first_step, lemma_prefix_frame, lemma_put_frame,
    prefix_frame,
    lemma_remove_keeps_absent, lemma_removal_frame, lemma_value_frame, log_with, lru_first, put_evicts,
    put_frame, put_outcome, removal_frame, touched, value_frame, value_of, without_key,
};
use crate::result::PutResult;
use crate::store::{
    entries_of, lemma_agrees_inserted, lemma_agrees_reordered, lemma_revalued, lemma_sound_distinct,
    sound,
};
use std::collections::hash_map::RandomState;
use std::collections::HashMap;
use std::hash::{BuildHasher, Hash};
use vstd::prelude::*;
use vstd::std_specs::hash::obeys_key_model;

verus! {

/// The hasher of a cache that was not given one.
pub type DefaultHashBuilder = RandomState;

/// A clone of a key is that key again.
pub open spec fn clone_keeps<K: Clone>() -> bool {
    forall|a: K, b: K| cloned::<K>(a, b) ==> a == b
}

/// What a cache asks of its keys: what its index asks, and that cloning a key
/// yields the same key.
pub open spec fn lawful_keys<K: Clone, I: KeyIndex<K>>() -> bool {
    &&& I::lawful()
    &&& clone_keeps::<K>()
}

/// A least-recently-used cache that holds at most `cap` entries.
///
/// Its model, `self@`, is the sequence of its entries from the most recently
/// used to the least recently used. `E` is told of every entry that leaves
/// the cache; `I` is the index from keys to arena slots.
pub struct RawLRU<K, V, E = DefaultEvictCallback, I = HashMap<K, usize, DefaultHashBuilder>> {
    /// From each key to the slot of its entry.
    index: I,
    /// The arena: the two sentinels, then the slots ever allocated.
    slots: Vec<EntryNode<K, V>>,
    /// The allocated slots that hold no entry at the moment.
    free: Vec<usize>,
    len: usize,
    cap: usize,
    on_evict: E,
    /// The slots in use, in list order.
    order: Ghost<Seq<usize>>,
    /// Every pair handed to `on_evict` so far, in the order of the calls.
    notified: Ghost<Seq<(K, V)>>,
}

impl<K, V, E, I> View for RawLRU<K, V, E, I> {
    type V = Seq<(K, V)>;

    closed spec fn view(&self) -> Seq<(K, V)> {
        entries_of(self.slots@, self.order@)
    }
}

impl<K: Clone, V, E: OnEvictCallback, I: KeyIndex<K>> RawLRU<K, V, E, I> {
    /// The most entries the cache will hold.
    pub closed spec fn spec_cap(&self) -> nat {
        self.cap as nat
    }

    /// Every pair that the cache has handed to its eviction callback, in the
    /// order of the calls.
    pub closed spec fn notified(&self) -> Seq<(K, V)> {
        self.notified@
    }

    /// The arena, the list and the index agree with each other.
    pub closed spec fn inv(&self) -> bool {
        &&& lawful_keys::<K, I>()
        &&& sound(self.slots@, self.order@, self.free@, self.index.entries(), self.len)
    }

    /// The cache is sound and empty, holds at most `cap` entries, and has
    /// reported nothing yet: what a constructor returns.
    pub open spec fn is_fresh(&self, cap: usize) -> bool {
        &&& self.wf()
        &&& self@ == Seq::<(K, V)>::empty()
        &&& self.spec_cap() == cap
        &&& self.notified() == Seq::<(K, V)>::empty()
    }

    /// The cache is sound: its parts agree, it is within its capacity, and no
    /// key occurs twice.
    pub open spec fn wf(&self) -> bool {
        &&& self.inv()
        &&& self@.len() <= self.spec_cap()
        &&& distinct_keys(self@)
    }

    /// No key occurs twice.
    proof fn lemma_distinct(&self)
        requires
            self.inv(),
        ensures
            distinct_keys(self@),
    {
        lemma_sound_distinct(self.slots@, self.order@, self.free@, self.index.entries(), self.len);
    }

    /// Every listed slot holds an entry.
    proof fn lemma_listed_entries(&self)
        requires
            self.inv(),
        ensures
            linked(self.slots@, self.order@),
            self.len == self.order@.len(),
            forall|i: int|
                0 <= i < self.order@.len() ==> (#[trigger] self.slots@[self.order@[i] as int]).entry is Some,
    {
        assert forall|i: int| 0 <= i < self.order@.len() implies
            (#[trigger] self.slots@[self.order@[i] as int]).entry is Some
        by {
            assert(self.order@.contains(self.order@[i]));
        }
    }

    /// A key that the index knows sits in the list, at the position that the
    /// model gives it.
    proof fn lemma_hit(&self, k: K) -> (p: int)
        requires
            self.inv(),
            self.index.entries().contains_key(k),
        ensures
            0 <= p < self.order@.len(),
            self.order@[p] == self.index.entries()[k],
            self@[p] == self.slots@[self.index.entries()[k] as int].entry.unwrap(),
            self@[p].0 == k,
            has_key(self@, k),
            key_index(self@, k) == p,
    {
        let s = self.index.entries()[k];
        assert(self.order@.contains(s));
        let p = self.order@.index_of(s);
        self.lemma_distinct();
        lemma_key_index_unique(self@, k, p);
        p
    }

    /// A key that the index does not know is not in the cache.
    proof fn lemma_miss(&self, k: K)
        requires
            self.inv(),
            !self.index.entries().contains_key(k),
        ensures
            !has_key(self@, k),
    {
        if has_key(self@, k) {
            let i = key_index(self@, k);
            assert(self.order@.contains(self.order@[i]));
        }
    }

    /// Whatever value the entry at list position `p` is given, the cache stays
    /// sound, and only that entry's value differs.
    proof fn lemma_any_value(&self, p: int)
        requires
            self.wf(),
            0 <= p < self.order@.len(),
        ensures
            forall|w: V|
                {
                    let slots = #[trigger] revalued(self.slots@, self.order@[p], w);
                    &&& sound(slots, self.order@, self.free@, self.index.entries(), self.len)
                    &&& entries_of(slots, self.order@) == self@.update(p, (self@[p].0, w))
                    &&& distinct_keys(entries_of(slots, self.order@))
                    &&& value_frame(self@, entries_of(slots, self.order@), self@[p].0)
                },
    {
        assert forall|w: V|
            {
                let slots = #[trigger] revalued(self.slots@, self.order@[p], w);
                &&& sound(slots, self.order@, self.free@, self.index.entries(), self.len)
                &&& entries_of(slots, self.order@) == self@.update(p, (self@[p].0, w))
                &&& distinct_keys(entries_of(slots, self.order@))
                &&& value_frame(self@, entries_of(slots, self.order@), self@[p].0)
            } by {
            lemma_revalued(self.slots@, self.order@, self.free@, self.index.entries(), self.len, p, w);
            lemma_value_frame(self@, p, w);
        }
    }

    /// Makes the entry in slot `s`, at list position `p`, the most recently
    /// used one.
    fn move_to_front(&mut self, s: usize, Ghost(p): Ghost<int>)
        requires
            old(self).inv(),
            0 <= p < old(self).order@.len(),
            old(self).order@[p] == s,
        ensures
            final(self).inv(),
            final(self)@ == touched(old(self)@, p),
            final(self).spec_cap() == old(self).spec_cap(),
            final(self).notified() == old(self).notified(),
            final(self).order@[0] == s,
            final(self).index.entries() == old(self).index.entries(),
    {
        let ghost before = self.order@;
        let ghost rest = before.remove(p);
        let ghost after = seq![s] + rest;
        proof {
            lemma_remove_members(before, p);
            lemma_cons_members(rest, s);
            assert(before.contains(s));
        }
        detach(&mut self.slots, s, Ghost(before), Ghost(p));
        attach(&mut self.slots, s, Ghost(rest));
        self.order = Ghost(after);
        proof {
            lemma_agrees_reordered(old(self).slots@, before, self.free@, self.index.entries(), self.slots@, after);
            assert(self@ =~= touched(old(self)@, p));
        }
    }

    /// Takes the entry in slot `s`, at list position `p`, out of the cache and
    /// frees its slot.
    fn unlink(&mut self, s: usize, Ghost(p): Ghost<int>) -> (e: (K, V))
        requires
            old(self).inv(),
            0 <= p < old(self).order@.len(),
            old(self).order@[p] == s,
        ensures
            final(self).inv(),
            e == old(self)@[p],
            final(self)@ == old(self)@.remove(p),
            final(self).spec_cap() == old(self).spec_cap(),
            final(self).notified() == old(self).notified(),
    {
        let ghost before = self.order@;
        let ghost rest = before.remove(p);
        proof {
            lemma_remove_members(before, p);
            assert(before.contains(s));
        }
        let taken = self.slots[s].entry.take();
        detach(&mut self.slots, s, Ghost(before), Ghost(p));
        let e = taken.unwrap();
        self.index.forget(&e.0);
        self.free.push(s);
        self.len = self.len - 1;
        self.order = Ghost(rest);
        proof {
            assert(self@ =~= old(self)@.remove(p));
        }
        e
    }

    /// Makes `(k, v)`, whose key is new to the cache, the most recently used
    /// entry.
    fn insert_front(&mut self, k: K, v: V)
        requires
            old(self).inv(),
            !has_key(old(self)@, k),
            old(self)@.len() < usize::MAX,
        ensures
            final(self).inv(),
            final(self)@ == seq![(k, v)] + old(self)@,
            final(self).spec_cap() == old(self).spec_cap(),
            final(self).notified() == old(self).notified(),
    {
        let ghost before = self.order@;
        let ghost free_before = self.free@;
        proof {
            if self.index.entries().contains_key(k) {
                self.lemma_hit(k);
            }
        }
        let key = k.clone();
        assert(cloned::<K>(k, key));
        let s = match self.free.pop() {
            Some(s) => {
                proof {
                    assert(s == free_before[free_before.len() - 1]);
                }
                self.slots[s].entry = Some((k, v));
                s
            },
            None => {
                let s = self.slots.len();
                self.slots.push(EntryNode::new(k, v));
                s
            },
        };
        proof {
            assert(!before.contains(s)) by {
                if before.contains(s) {
                    let i = before.index_of(s);
                    assert(before[i] < old(self).slots@.len());
                }
            }
            assert(linked(self.slots@, before));
            assert forall|i: int| 0 <= i < self.free@.len() implies
                free_before.contains(#[trigger] self.free@[i]) && self.free@[i] != s
            by {
                assert(free_before[i] == self.free@[i]);
            }
        }
        let ghost mid = self.slots@;
        attach(&mut self.slots, s, Ghost(before));
        self.index.store(key, s);
        self.len = self.len + 1;
        self.order = Ghost(seq![s] + before);
        proof {
            lemma_agrees_inserted(
                old(self).slots@,
                before,
                free_before,
                old(self).index.entries(),
                self.slots@,
                self.free@,
                s,
                k,
            );
            assert(self@ =~= seq![(k, v)] + old(self)@);
        }
    }

    /// Builds an empty cache around an empty index.
    fn construct(cap: usize, index: I, on_evict: E) -> (cache: Self)
        requires
            lawful_keys::<K, I>(),
            index.entries() == Map::<K, usize>::empty(),
        ensures
            cache.wf(),
            cache@ == Seq::<(K, V)>::empty(),
            cache.spec_cap() == cap,
            cache.notified() == Seq::<(K, V)>::empty(),
    {
        let mut slots: Vec<EntryNode<K, V>> = Vec::new();
        slots.push(EntryNode::new_sigil());
        slots.push(EntryNode::new_sigil());
        let cache = RawLRU {
            index,
            slots,
            free: Vec::new(),
            len: 0,
            cap,
            on_evict,
            order: Ghost(Seq::empty()),
            notified: Ghost(Seq::empty()),
        };
        proof {
            assert(cache@ =~= Seq::<(K, V)>::empty());
            assert(node_at(cache.order@, -1) == HEAD);
            assert(node_at(cache.order@, 0) == TAIL);
        }
        cache
    }

    /// The number of entries.
    pub fn len(&self) -> (n: usize)
        requires
            self.wf(),
        ensures
            n == self@.len(),
    {
        self.len
    }

    /// Whether the cache holds no entry.
    pub fn is_empty(&self) -> (b: bool)
        requires
            self.wf(),
        ensures
            b <==> self@.len() == 0,
    {
        self.len == 0
    }

    /// The most entries the cache will hold.
    pub fn cap(&self) -> (n: usize)
        ensures
            n == self.spec_cap(),
    {
        self.cap
    }

    /// Whether `k` is in the cache; the recency order is left alone.
    pub fn contains(&self, k: &K) -> (b: bool)
        requires
            self.wf(),
        ensures
            b <==> has_key(self@, *k),
    {
        let b = self.index.find(k).is_some();
        proof {
            if b {
                self.lemma_hit(*k);
            } else {
                self.lemma_miss(*k);
            }
        }
        b
    }

    /// The value stored under `k`; the recency order is left alone.
    pub fn peek(&self, k: &K) -> (r: Option<&V>)
        requires
            self.wf(),
        ensures
            r matches Some(v) ==> value_of(self@, *k) == Some(*v),
            r is None ==> value_of(self@, *k) is None,
    {
        match self.index.find(k) {
            None => {
                proof {
                    self.lemma_miss(*k);
                }
                None
            },
            Some(s) => {
                proof {
                    self.lemma_hit(*k);
                }
                match &self.slots[s].entry {
                    Some(e) => Some(&e.1),
                    None => None,
                }
            },
        }
    }

    /// The slot of the least recently used entry.
    fn lru_slot(&self) -> (s: usize)
        requires
            self.inv(),
            self@.len() > 0,
        ensures
            s == self.order@[self.order@.len() - 1],
    {
        proof {
            assert(node_at(self.order@, self.order@.len() as int) == TAIL);
            assert(node_at(self.order@, self.order@.len() - 1) == self.order@[self.order@.len() - 1]);
        }
        self.slots[TAIL].prev
    }

    /// Hands `e` to the eviction callback.
    fn notify(&mut self, e: &(K, V))
        requires
            old(self).wf(),
        ensures
            final(self).wf(),
            final(self)@ == old(self)@,
            final(self).spec_cap() == old(self).spec_cap(),
            final(self).notified() == old(self).notified().push(*e),
    {
        self.on_evict.on_evict(&e.0, &e.1);
        self.notified = Ghost(self.notified@.push(*e));
    }

    /// Stores `v` under `k` and makes the entry the most recently used.
    ///
    /// A key already present keeps its place in the count and gives back its
    /// old value. A new key takes the room of the least recently used entry
    /// when the cache is full; that entry is reported to the eviction callback
    /// and returned. A cache that was resized to capacity zero takes no
    /// entry: resize it before the next put.
    pub fn put(&mut self, k: K, v: V) -> (r: PutResult<K, V>)
        requires
            old(self).wf(),
            old(self).spec_cap() > 0,
        ensures
            final(self).wf(),
            final(self).spec_cap() == old(self).spec_cap(),
            final(self)@ == after_put(old(self)@, old(self).spec_cap(), k, v),
            r == put_outcome(old(self)@, old(self).spec_cap(), k),
            final(self).notified() == log_with(
                old(self).notified(),
                put_evicts(old(self)@, old(self).spec_cap(), k),
            ),
            put_frame(old(self)@, final(self)@, old(self).spec_cap(), k, v),
    {
        let found = self.index.find(&k);
        let r = match found {
            Some(s) => {
                let ghost p = self.lemma_hit(k);
                let taken = self.slots[s].entry.take();
                let (key, old_value) = taken.unwrap();
                self.slots[s].entry = Some((key, v));
                proof {
                    assert(self.order@.contains(s));
                    lemma_agrees_reordered(
                        old(self).slots@,
                        self.order@,
                        self.free@,
                        self.index.entries(),
                        self.slots@,
                        self.order@,
                    );
                    assert(linked(self.slots@, self.order@));
                    assert(self@ =~= old(self)@.update(p, (k, v)));
                }
                self.move_to_front(s, Ghost(p));
                proof {
                    assert(self@ =~= seq![(k, v)] + old(self)@.remove(p));
                    self.lemma_distinct();
                }
                PutResult::Update(old_value)
            },
            None => {
                proof {
                    self.lemma_miss(k);
                }
                if self.len >= self.cap {
                    let ghost last = self@.len() - 1;
                    let t = self.lru_slot();
                    let e = self.unlink(t, Ghost(last));
                    proof {
                        lemma_remove_keeps_absent(old(self)@, last, k);
                        assert(old(self)@.remove(last) =~= old(self)@.drop_last());
                    }
                    self.insert_front(k, v);
                    proof {
                        self.lemma_distinct();
                    }
                    self.notify(&e);
                    PutResult::Evicted { key: e.0, value: e.1 }
                } else {
                    self.insert_front(k, v);
                    proof {
                        self.lemma_distinct();
                    }
                    PutResult::Put
                }
            },
        };
        proof {
            lemma_put_frame(old(self)@, old(self).spec_cap(), k, v);
        }
        r
    }

    /// The value stored under `k`; a hit makes the entry the most recently
    /// used one.
    pub fn get(&mut self, k: &K) -> (r: Option<&V>)
        requires
            old(self).wf(),
        ensures
            final(self).wf(),
            final(self).spec_cap() == old(self).spec_cap(),
            final(self).notified() == old(self).notified(),
            final(self)@ == after_get(old(self)@, *k),
            r matches Some(v) ==> value_of(old(self)@, *k) == Some(*v),
            r is None ==> value_of(old(self)@, *k) is None,
            carried_over(old(self)@, final(self)@, None, None),
    {
        let found = self.index.find(k);
        match found {
            None => {
                proof {
                    self.lemma_miss(*k);
                }
                None
            },
            Some(s) => {
                let ghost p = self.lemma_hit(*k);
                self.move_to_front(s, Ghost(p));
                proof {
                    self.lemma_distinct();
                    lemma_get_frame(old(self)@, *k);
                    assert(self.order@[0] == s);
                    assert(self.order@.contains(s));
                    assert(self@[0] == self.slots@[s as int].entry.unwrap());
                    assert(self@[0] == old(self)@[p]);
                    assert(value_of(old(self)@, *k) == Some(old(self)@[p].1));
                }
                match &self.slots[s].entry {
                    Some(e) => Some(&e.1),
                    None => None,
                }
            },
        }
    }

    /// Takes `k` and its value out of the cache, without telling the eviction
    /// callback: the entry is handed to the caller, not dropped.
    pub fn remove_and_return_ent(&mut self, k: &K) -> (r: Option<(K, V)>)
        requires
            old(self).wf(),
        ensures
            final(self).wf(),
            final(self).spec_cap() == old(self).spec_cap(),
            final(self).notified() == old(self).notified(),
            final(self)@ == without_key(old(self)@, *k),
            r == entry_of(old(self)@, *k),
            removal_frame(old(self)@, final(self)@, *k),
    {
        let found = self.index.find(k);
        match found {
            None => {
                proof {
                    self.lemma_miss(*k);
                }
                None
            },
            Some(s) => {
                let ghost p = self.lemma_hit(*k);
                let e = self.unlink(s, Ghost(p));
                proof {
                    self.lemma_distinct();
                    lemma_removal_frame(old(self)@, p);
                }
                Some(e)
            },
        }
    }

    /// Takes the least recently used entry out of the cache, without telling
    /// the eviction callback.
    pub fn remove_lru_in(&mut self) -> (r: Option<(K, V)>)
        requires
            old(self).wf(),
        ensures
            final(self).wf(),
            final(self).spec_cap() == old(self).spec_cap(),
            final(self).notified() == old(self).notified(),
            old(self)@.len() == 0 ==> r is None && final(self)@ == old(self)@,
            old(self)@.len() > 0 ==> {
                &&& r == Some(old(self)@.last())
                &&& final(self)@ == old(self)@.drop_last()
                &&& removal_frame(old(self)@, final(self)@, old(self)@.last().0)
            },
    {
        if self.len == 0 {
            None
        } else {
            let ghost last = self@.len() - 1;
            let t = self.lru_slot();
            let e = self.unlink(t, Ghost(last));
            proof {
                assert(old(self)@.remove(last) =~= old(self)@.drop_last());
                self.lemma_distinct();
                lemma_removal_frame(old(self)@, last);
            }
            Some(e)
        }
    }

    /// Removes `k` and returns its value; the removed pair is reported to the
    /// eviction callback.
    pub fn remove(&mut self, k: &K) -> (r: Option<V>)
        requires
            old(self).wf(),
        ensures
            final(self).wf(),
            final(self).spec_cap() == old(self).spec_cap(),
            final(self)@ == without_key(old(self)@, *k),
            r == value_of(old(self)@, *k),
            final(self).notified() == log_with(old(self).notified(), entry_of(old(self)@, *k)),
            removal_frame(old(self)@, final(self)@, *k),
    {
        match self.remove_and_return_ent(k) {
            None => None,
            Some(e) => {
                self.notify(&e);
                Some(e.1)
            },
        }
    }

    /// Removes and returns the least recently used entry, if there is one, and
    /// reports it to the eviction callback.
    pub fn remove_lru(&mut self) -> (r: Option<(K, V)>)
        requires
            old(self).wf(),
        ensures
            final(self).wf(),
            final(self).spec_cap() == old(self).spec_cap(),
            old(self)@.len() == 0 ==> {
                &&& r is None
                &&& final(self)@ == old(self)@
                &&& final(self).notified() == old(self).notified()
            },
            old(self)@.len() > 0 ==> {
                &&& r == Some(old(self)@.last())
                &&& final(self)@ == old(self)@.drop_last()
                &&& final(self).notified() == old(self).notified().push(old(self)@.last())
                &&& removal_frame(old(self)@, final(self)@, old(self)@.last().0)
            },
    {
        match self.remove_lru_in() {
            None => None,
            Some(e) => {
                self.notify(&e);
                Some(e)
            },
        }
    }

    /// The value stored under `k`, to read or to change; the recency order is
    /// left alone.
    pub fn peek_mut(&mut self, k: &K) -> (r: Option<&mut V>)
        requires
            old(self).wf(),
        ensures
            final(self).wf(),
            final(self).spec_cap() == old(self).spec_cap(),
            final(self).notified() == old(self).notified(),
            r is Some <==> has_key(old(self)@, *k),
            r matches Some(v) ==> {
                &&& value_of(old(self)@, *k) == Some(*v)
                &&& final(self)@ == old(self)@.update(key_index(old(self)@, *k), (*k, *final(v)))
                &&& value_frame(old(self)@, final(self)@, *k)
            },
            r is None ==> final(self)@ == old(self)@,
    {
        let found = self.index.find(k);
        match found {
            None => {
                proof {
                    self.lemma_miss(*k);
                }
                None
            },
            Some(s) => {
                let ghost p = self.lemma_hit(*k);
                proof {
                    assert(self.order@.contains(s));
                    self.lemma_any_value(p);
                }
                Some(value_mut(&mut self.slots, s))
            },
        }
    }

    /// The value stored under `k`, to read or to change; a hit makes the entry
    /// the most recently used one.
    pub fn get_mut(&mut self, k: &K) -> (r: Option<&mut V>)
        requires
            old(self).wf(),
        ensures
            final(self).wf(),
            final(self).spec_cap() == old(self).spec_cap(),
            final(self).notified() == old(self).notified(),
            r is Some <==> has_key(old(self)@, *k),
            r matches Some(v) ==> {
                &&& value_of(old(self)@, *k) == Some(*v)
                &&& final(self)@ == after_get(old(self)@, *k).update(0, (*k, *final(v)))
                &&& value_frame(old(self)@, final(self)@, *k)
            },
            r is None ==> final(self)@ == old(self)@,
    {
        let found = self.index.find(k);
        match found {
            None => {
                proof {
                    self.lemma_miss(*k);
                }
                None
            },
            Some(s) => {
                let ghost p = self.lemma_hit(*k);
                self.move_to_front(s, Ghost(p));
                proof {
                    self.lemma_distinct();
                    assert(self@.len() == old(self)@.len());
                    assert(self.order@.len() == self@.len());
                    assert(self.order@.contains(s));
                    assert(self@[0] == old(self)@[p]);
                    lemma_get_frame(old(self)@, *k);
                    self.lemma_any_value(0);
                }
                Some(value_mut(&mut self.slots, s))
            },
        }
    }

    /// The least recently used entry, its value to read or to change; a hit
    /// makes it the most recently used one.
    pub fn get_lru_mut(&mut self) -> (r: Option<(&K, &mut V)>)
        requires
            old(self).wf(),
        ensures
            final(self).wf(),
            final(self).spec_cap() == old(self).spec_cap(),
            final(self).notified() == old(self).notified(),
            r is Some <==> old(self)@.len() > 0,
            r matches Some(e) ==> {
                &&& (*e.0, *e.1) == old(self)@.last()
                &&& final(self)@ == touched(old(self)@, old(self)@.len() - 1).update(0, (*e.0, *final(e.1)))
                &&& value_frame(old(self)@, final(self)@, *e.0)
            },
            r is None ==> final(self)@ == old(self)@,
    {
        if self.len == 0 {
            None
        } else {
            let ghost last = self@.len() - 1;
            let t = self.lru_slot();
            self.move_to_front(t, Ghost(last));
            proof {
                self.lemma_distinct();
                assert(self@.len() == old(self)@.len());
                assert(self.order@.len() == self@.len());
                assert(self.order@.contains(t));
                assert(self@[0] == old(self)@[last]);
                lemma_key_index_unique(old(self)@, old(self)@[last].0, last);
                lemma_get_frame(old(self)@, old(self)@[last].0);
                self.lemma_any_value(0);
            }
            Some(entry_mut(&mut self.slots, t))
        }
    }

    /// The least recently used entry, its value to read or to change; the
    /// recency order is left alone.
    pub fn peek_lru_mut(&mut self) -> (r: Option<(&K, &mut V)>)
        requires
            old(self).wf(),
        ensures
            final(self).wf(),
            final(self).spec_cap() == old(self).spec_cap(),
            final(self).notified() == old(self).notified(),
            r is Some <==> old(self)@.len() > 0,
            r matches Some(e) ==> {
                &&& (*e.0, *e.1) == old(self)@.last()
                &&& final(self)@ == old(self)@.update(old(self)@.len() - 1, (*e.0, *final(e.1)))
                &&& value_frame(old(self)@, final(self)@, *e.0)
            },
            r is None ==> final(self)@ == old(self)@,
    {
        if self.len == 0 {
            None
        } else {
            let ghost last = self@.len() - 1;
            let t = self.lru_slot();
            proof {
                assert(self.order@.contains(self.order@[last]));
                self.lemma_any_value(last);
            }
            Some(entry_mut(&mut self.slots, t))
        }
    }

    /// The least recently used entry; a hit makes it the most recently used
    /// one. To look without reordering, use `peek_lru`.
    pub fn get_lru(&mut self) -> (r: Option<(&K, &V)>)
        requires
            old(self).wf(),
        ensures
            final(self).wf(),
            final(self).spec_cap() == old(self).spec_cap(),
            final(self).notified() == old(self).notified(),
            old(self)@.len() == 0 ==> r is None && final(self)@ == old(self)@,
            old(self)@.len() > 0 ==> {
                &&& (r matches Some(e) && (*e.0, *e.1) == old(self)@.last())
                &&& final(self)@ == touched(old(self)@, old(self)@.len() - 1)
            },
            carried_over(old(self)@, final(self)@, None, None),
    {
        if self.len == 0 {
            None
        } else {
            let ghost last = self@.len() - 1;
            let t = self.lru_slot();
            self.move_to_front(t, Ghost(last));
            proof {
                self.lemma_distinct();
                assert(self@.len() == old(self)@.len());
                assert(self.order@.len() == self@.len());
                assert(self.order@[0] == t);
                assert(self.order@.contains(t));
                assert(self@[0] == self.slots@[t as int].entry.unwrap());
                assert(self@[0] == old(self)@[last]);
                lemma_key_index_unique(old(self)@, old(self)@[last].0, last);
                lemma_get_frame(old(self)@, old(self)@[last].0);
            }
            match &self.slots[t].entry {
                Some(e) => Some((&e.0, &e.1)),
                None => None,
            }
        }
    }

    /// The least recently used entry; the recency order is left alone.
    pub fn peek_lru(&self) -> (r: Option<(&K, &V)>)
        requires
            self.wf(),
        ensures
            self@.len() == 0 ==> r is None,
            self@.len() > 0 ==> (r matches Some(e) && (*e.0, *e.1) == self@.last()),
    {
        if self.len == 0 {
            None
        } else {
            let t = self.lru_slot();
            proof {
                let last = self.order@.len() - 1;
                assert(self.order@.contains(self.order@[last]));
                assert(self@[last] == self.slots@[t as int].entry.unwrap());
            }
            match &self.slots[t].entry {
                Some(e) => Some((&e.0, &e.1)),
                None => None,
            }
        }
    }

    /// A walk over the entries, from the most recently used to the least
    /// recently used.
    pub fn iter(&self) -> (it: Iter<'_, K, V>)
        requires
            self.wf(),
        ensures
            it.wf(),
            it@ == self@,
    {
        proof {
            self.lemma_listed_entries();
        }
        Iter::over(&self.slots, self.len, false, Ghost(self.order@))
    }

    /// A walk over the entries, from the least recently used to the most
    /// recently used.
    pub fn reversed_iter(&self) -> (it: Iter<'_, K, V>)
        requires
            self.wf(),
        ensures
            it.wf(),
            it@ == self@.reverse(),
    {
        proof {
            self.lemma_listed_entries();
        }
        Iter::over(&self.slots, self.len, true, Ghost(self.order@))
    }

    /// A walk over the keys, from the most recently used to the least
    /// recently used.
    pub fn keys(&self) -> (it: Keys<'_, K, V>)
        requires
            self.wf(),
        ensures
            it.wf(),
            it@ == keys_of(self@),
    {
        Keys::over(self.iter())
    }

    /// A walk over the keys, from the least recently used to the most
    /// recently used.
    pub fn reversed_keys(&self) -> (it: Keys<'_, K, V>)
        requires
            self.wf(),
        ensures
            it.wf(),
            it@ == keys_of(self@.reverse()),
    {
        Keys::over(self.reversed_iter())
    }

    /// A walk over the entries, from the most recently used to the least
    /// recently used, that lends each value for change. The cache is held by
    /// the walk while it lives, and is `final(self)` once it is gone.
    pub fn iter_mut(&mut self) -> (it: IterMut<'_, K, V, E, I>)
        requires
            old(self).wf(),
        ensures
            it.wf(),
            it@ == old(self)@,
            it.lo() == 0,
            !it.is_reversed(),
            *it.target() == *old(self),
            *final(it.target()) == *final(self),
    {
        IterMut::over(self, false)
    }

    /// A walk over the entries, from the least recently used to the most
    /// recently used, that lends each value for change. The cache is held by
    /// the walk while it lives, and is `final(self)` once it is gone.
    pub fn reverse_iter_mut(&mut self) -> (it: IterMut<'_, K, V, E, I>)
        requires
            old(self).wf(),
        ensures
            it.wf(),
            it@ == old(self)@.reverse(),
            it.lo() == 0,
            it.is_reversed(),
            *it.target() == *old(self),
            *final(it.target()) == *final(self),
    {
        IterMut::over(self, true)
    }

    /// The slot of the entry at list position `p`; the sentinels stand at the
    /// positions before the first and behind the last.
    pub closed spec fn slot_at(&self, p: int) -> usize {
        node_at(self.order@, p)
    }

    /// The slot of the most recently used entry.
    pub(crate) fn first_slot(&self) -> (s: usize)
        requires
            self.wf(),
        ensures
            s == self.slot_at(0),
    {
        proof {
            assert(node_at(self.order@, -1) == HEAD);
        }
        self.slots[HEAD].next
    }

    /// The slot of the least recently used entry.
    pub(crate) fn last_slot(&self) -> (s: usize)
        requires
            self.wf(),
        ensures
            s == self.slot_at(self@.len() - 1),
    {
        proof {
            assert(node_at(self.order@, self.order@.len() as int) == TAIL);
        }
        self.slots[TAIL].prev
    }

    /// The slot behind slot `s`, which stands at list position `p`.
    pub(crate) fn slot_after(&self, s: usize, Ghost(p): Ghost<int>) -> (t: usize)
        requires
            self.wf(),
            0 <= p < self@.len(),
            s == self.slot_at(p),
        ensures
            t == self.slot_at(p + 1),
    {
        proof {
            assert(node_at(self.order@, p) == s);
        }
        self.slots[s].next
    }

    /// The slot before slot `s`, which stands at list position `p`.
    pub(crate) fn slot_before(&self, s: usize, Ghost(p): Ghost<int>) -> (t: usize)
        requires
            self.wf(),
            0 <= p < self@.len(),
            s == self.slot_at(p),
        ensures
            t == self.slot_at(p - 1),
    {
        proof {
            assert(node_at(self.order@, p - 1 + 1) == s);
            assert(node_at(self.order@, p - 1) == self.slots@[s as int].prev);
        }
        self.slots[s].prev
    }

    /// The entry in slot `s`, which stands at list position `p`: its key to
    /// read, its value to read or to change.
    pub(crate) fn slot_entry_mut(&mut self, s: usize, Ghost(p): Ghost<int>) -> (e: (&K, &mut V))
        requires
            old(self).wf(),
            0 <= p < old(self)@.len(),
            s == old(self).slot_at(p),
        ensures
            final(self).wf(),
            final(self).spec_cap() == old(self).spec_cap(),
            final(self).notified() == old(self).notified(),
            (*e.0, *e.1) == old(self)@[p],
            final(self)@ == old(self)@.update(p, (*e.0, *final(e.1))),
            value_frame(old(self)@, final(self)@, *e.0),
            forall|q: int| final(self).slot_at(q) == old(self).slot_at(q),
    {
        proof {
            assert(self.order@.contains(self.order@[p]));
            self.lemma_any_value(p);
        }
        entry_mut(&mut self.slots, s)
    }

    /// Sets the capacity to `cap`. Entries beyond it are evicted, the least
    /// recently used first, each reported to the eviction callback; the
    /// result is their number.
    pub fn resize(&mut self, cap: usize) -> (evicted: u64)
        requires
            old(self).wf(),
        ensures
            final(self).wf(),
            final(self).spec_cap() == cap,
            evicted == excess(old(self)@.len(), cap as nat),
            final(self)@ == old(self)@.subrange(0, old(self)@.len() - evicted),
            final(self).notified() == old(self).notified() + lru_first(old(self)@, evicted as nat),
            prefix_frame(old(self)@, final(self)@),
    {
        let mut evicted: u64 = 0;
        let ghost start = self@;
        let ghost log = self.notified();
        proof {
            assert(start.subrange(0, start.len() as int) =~= start);
            assert(log + lru_first(start, 0) =~= log);
            lemma_prefix_frame(start, start.len() - excess(start.len(), cap as nat));
        }
        if cap == self.cap {
            return evicted;
        }
        while self.len > cap
            invariant
                self.wf(),
                self.spec_cap() == old(self).spec_cap(),
                start.len() <= usize::MAX,
                evicted + self@.len() == start.len(),
                self@ == start.subrange(0, start.len() - evicted),
                self.notified() == log + lru_first(start, evicted as nat),
                evicted == 0 || self@.len() >= cap,
            decreases self.len,
        {
            proof {
                lemma_lru_first_step(start, evicted as nat);
                assert(log + lru_first(start, evicted as nat + 1) =~= (log + lru_first(
                    start,
                    evicted as nat,
                )).push(self@.last()));
            }
            self.remove_lru();
            evicted = evicted + 1;
        }
        self.index.shrink();
        self.cap = cap;
        evicted
    }

    /// Evicts every entry, the least recently used first, reporting each to
    /// the eviction callback.
    pub fn purge(&mut self)
        requires
            old(self).wf(),
        ensures
            final(self).wf(),
            final(self).spec_cap() == old(self).spec_cap(),
            final(self)@ == Seq::<(K, V)>::empty(),
            final(self).notified() == old(self).notified() + lru_first(old(self)@, old(self)@.len()),
    {
        let ghost start = self@;
        let ghost log = self.notified();
        let ghost mut done: nat = 0;
        proof {
            assert(start.subrange(0, start.len() as int) =~= start);
            assert(log + lru_first(start, 0) =~= log);
        }
        while self.len > 0
            invariant
                self.wf(),
                self.spec_cap() == old(self).spec_cap(),
                done + self@.len() == start.len(),
                self@ == start.subrange(0, start.len() - done),
                self.notified() == log + lru_first(start, done),
            decreases self.len,
        {
            proof {
                lemma_lru_first_step(start, done);
                assert(log + lru_first(start, done + 1) =~= (log + lru_first(start, done)).push(
                    self@.last(),
                ));
                done = done + 1;
            }
            self.remove_lru();
        }
        proof {
            assert(self@ =~= Seq::<(K, V)>::empty());
        }
    }
}

impl<K: Hash + Eq + Clone, V> RawLRU<K, V> {
    /// An empty cache that holds at most `cap` entries; capacity zero is
    /// refused.
    pub fn new(cap: usize) -> (r: Result<Self, CacheError>)
        requires
            obeys_key_model::<K>(),
            clone_keeps::<K>(),
        ensures
            cap > 0 <==> r is Ok,
            r matches Err(e) ==> e == CacheError::InvalidSize(0),
            r matches Ok(cache) ==> cache.is_fresh(cap),
    {
        match check_size(cap) {
            Err(e) => Err(e),
            Ok(_) => Ok(Self::construct(cap, HashMap::new(), DefaultEvictCallback)),
        }
    }
}

impl<K: Hash + Eq + Clone, V, S: BuildHasher> RawLRU<K, V, DefaultEvictCallback, HashMap<K, usize, S>> {
    /// An empty cache of capacity `cap` that hashes its keys with
    /// `hash_builder`; capacity zero is refused.
    pub fn with_hasher(cap: usize, hash_builder: S) -> (r: Result<Self, CacheError>)
        requires
            lawful_keys::<K, HashMap<K, usize, S>>(),
        ensures
            cap > 0 <==> r is Ok,
            r matches Err(e) ==> e == CacheError::InvalidSize(0),
            r matches Ok(cache) ==> cache.is_fresh(cap),
    {
        Self::with_hasher_and_on_evict_cb(cap, DefaultEvictCallback, hash_builder)
    }
}

impl<K: Hash + Eq + Clone, V, E: OnEvictCallback> RawLRU<K, V, E> {
    /// An empty cache of capacity `cap` that reports every entry that leaves
    /// it to `cb`; capacity zero is refused.
    pub fn with_on_evict_cb(cap: usize, cb: E) -> (r: Result<Self, CacheError>)
        requires
            obeys_key_model::<K>(),
            clone_keeps::<K>(),
        ensures
            cap > 0 <==> r is Ok,
            r matches Err(e) ==> e == CacheError::InvalidSize(0),
            r matches Ok(cache) ==> cache.is_fresh(cap),
    {
        match check_size(cap) {
            Err(e) => Err(e),
            Ok(_) => Ok(Self::construct(cap, HashMap::new(), cb)),
        }
    }
}

impl<K: Hash + Eq + Clone, V, E: OnEvictCallback, S: BuildHasher> RawLRU<K, V, E, HashMap<K, usize, S>> {
    /// An empty cache of capacity `cap` that hashes with `hasher` and reports
    /// to `cb`; capacity zero is refused.
    pub fn with_hasher_and_on_evict_cb(cap: usize, cb: E, hasher: S) -> (r: Result<Self, CacheError>)
        requires
            lawful_keys::<K, HashMap<K, usize, S>>(),
        ensures
            cap > 0 <==> r is Ok,
            r matches Err(e) ==> e == CacheError::InvalidSize(0),
            r matches Ok(cache) ==> cache.is_fresh(cap),
    {
        match check_size(cap) {
            Err(e) => Err(e),
            Ok(_) => {
                let index = empty_index(hasher);
                assert(index@ =~= Map::<K, usize>::empty());
                Ok(Self::construct(cap, index, cb))
            },
        }
    }
}

impl<V, E: OnEvictCallback> RawLRU<u64, V, E, FastIndex> {
    /// An empty cache of capacity `cap`, with `u64` keys indexed by
    /// hashbrown's hash map, that reports every entry that leaves it to `cb`;
    /// capacity zero is refused.
    pub fn on_hashbrown_with_on_evict_cb(cap: usize, cb: E) -> (r: Result<Self, CacheError>)
        ensures
            cap > 0 <==> r is Ok,
            r matches Err(e) ==> e == CacheError::InvalidSize(0),
            r matches Ok(cache) ==> cache.is_fresh(cap),
    {
        match check_size(cap) {
            Err(e) => Err(e),
            Ok(_) => Ok(Self::construct(cap, FastIndex::new(), cb)),
        }
    }
}

impl<V> RawLRU<u64, V, DefaultEvictCallback, FastIndex> {
    /// An empty cache of capacity `cap`, with `u64` keys indexed by
    /// hashbrown's hash map; capacity zero is refused.
    pub fn on_hashbrown(cap: usize) -> (r: Result<Self, CacheError>)
        ensures
            cap > 0 <==> r is Ok,
            r matches Err(e) ==> e == CacheError::InvalidSize(0),
            r matches Ok(cache) ==> cache.is_fresh(cap),
    {
        Self::on_hashbrown_with_on_evict_cb(cap, DefaultEvictCallback)
    }
}

/// `std::fmt::Formatter`, of which nothing is said.
#[verifier::external_type_specification]
#[verifier::external_body]
pub struct ExFormatter<'a>(std::fmt::Formatter<'a>);

/// `std::fmt::Error`, of which nothing is said.
#[verifier::external_type_specification]
#[verifier::external_body]
pub struct ExFmtError(std::fmt::Error);

impl<K, V, E, I> std::fmt::Debug for RawLRU<K, V, E, I> {
    /// Writes the length and the capacity of the cache.
    ///
    /// Calls `std::fmt::Formatter::debug_struct`; nothing is claimed of what
    /// is written.
    #[verifier::external_body]
    fn fmt(&self, f: &mut std::fmt::Formatter<'_>) -> (r: std::fmt::Result) {
        f.debug_struct("RawLRU").field("len", &self.len).field("cap", &self.cap).finish()
    }
}

} // verus!
