//! Walks over the entries of a cache in recency order.

use crate::callback::OnEvictCallback;
use crate::index::KeyIndex;
use crate::list::{linked, node_at, EntryNode, HEAD, TAIL};
use crate::model::value_frame;
use crate::raw::RawLRU;
use crate::store::entries_of;
use vstd::prelude::*;

verus! {

/// The entries at list positions `lo` up to, but without, `hi`.
pub open spec fn window<K, V>(slots: Seq<EntryNode<K, V>>, order: Seq<usize>, lo: int, hi: int) -> Seq<
    (K, V),
> {
    entries_of(slots, order.subrange(lo, hi))
}

/// A walk over the entries of a cache that can be advanced from both ends.
///
/// Its model, `self@`, is the sequence of the entries still to come, in the
/// order in which `next` yields them; `next_back` takes them from the other
/// end.
pub struct Iter<'a, K, V> {
    slots: &'a Vec<EntryNode<K, V>>,
    /// The slot that `next` yields.
    ptr: usize,
    /// The slot that `next_back` yields.
    end: usize,
    len: usize,
    /// Whether the walk runs from the least recently used entry upwards.
    reversed: bool,
    order: Ghost<Seq<usize>>,
    /// The list position of the first entry still to come, in list order.
    lo: Ghost<int>,
}

impl<'a, K, V> View for Iter<'a, K, V> {
    type V = Seq<(K, V)>;

    closed spec fn view(&self) -> Seq<(K, V)> {
        let w = window(self.slots@, self.order@, self.lo@, self.lo@ + self.len);
        if self.reversed {
            w.reverse()
        } else {
            w
        }
    }
}

impl<'a, K, V> Iter<'a, K, V> {
    /// The list position of the entry that `next` yields.
    spec fn front(&self) -> int {
        if self.reversed {
            self.lo@ + self.len - 1
        } else {
            self.lo@
        }
    }

    /// The list position of the entry that `next_back` yields.
    spec fn back(&self) -> int {
        if self.reversed {
            self.lo@
        } else {
            self.lo@ + self.len - 1
        }
    }

    /// The walk stands inside a sound list.
    pub closed spec fn wf(&self) -> bool {
        &&& linked(self.slots@, self.order@)
        &&& forall|i: int|
            0 <= i < self.order@.len() ==> (#[trigger] self.slots@[self.order@[i] as int]).entry is Some
        &&& 0 <= self.lo@
        &&& self.lo@ + self.len <= self.order@.len()
        &&& self.len > 0 ==> {
            &&& self.ptr == node_at(self.order@, self.front())
            &&& self.end == node_at(self.order@, self.back())
        }
    }

    /// A walk over the list positions of `order`, from the front or, if
    /// `reversed`, from the back.
    pub(crate) fn over(
        slots: &'a Vec<EntryNode<K, V>>,
        len: usize,
        reversed: bool,
        Ghost(order): Ghost<Seq<usize>>,
    ) -> (it: Self)
        requires
            linked(slots@, order),
            forall|i: int| 0 <= i < order.len() ==> (#[trigger] slots@[order[i] as int]).entry is Some,
            len == order.len(),
        ensures
            it.wf(),
            !reversed ==> it@ == entries_of(slots@, order),
            reversed ==> it@ == entries_of(slots@, order).reverse(),
    {
        proof {
            assert(node_at(order, -1) == HEAD);
            assert(node_at(order, order.len() as int) == TAIL);
            assert(order.subrange(0, order.len() as int) =~= order);
        }
        let first = slots[HEAD].next;
        let last = slots[TAIL].prev;
        Iter {
            slots,
            ptr: if reversed { last } else { first },
            end: if reversed { first } else { last },
            len,
            reversed,
            order: Ghost(order),
            lo: Ghost(0),
        }
    }

    /// The number of entries still to come.
    pub fn len(&self) -> (n: usize)
        requires
            self.wf(),
        ensures
            n == self@.len(),
    {
        self.len
    }

    /// The next entry of the walk.
    pub fn next(&mut self) -> (r: Option<(&'a K, &'a V)>)
        requires
            old(self).wf(),
        ensures
            final(self).wf(),
            old(self)@.len() == 0 ==> r is None && final(self)@ == old(self)@,
            old(self)@.len() > 0 ==> {
                &&& (r matches Some(e) && (*e.0, *e.1) == old(self)@.first())
                &&& final(self)@ == old(self)@.drop_first()
            },
    {
        if self.len == 0 {
            return None;
        }
        let slots: &'a Vec<EntryNode<K, V>> = self.slots;
        let s = self.ptr;
        let ghost lo = self.lo@;
        let ghost hi = self.lo@ + self.len;
        proof {
            let at = if self.reversed { hi - 1 } else { lo };
            assert(s == self.order@[at]);
            assert(slots@[self.order@[at] as int].entry is Some);
        }
        self.len = self.len - 1;
        if self.reversed {
            self.ptr = slots[s].prev;
            proof {
                assert(node_at(self.order@, hi - 1) == s);
                assert(self.order@.subrange(lo, hi - 1) =~= self.order@.subrange(lo, hi).drop_last());
                assert(self@ =~= old(self)@.drop_first());
            }
        } else {
            self.ptr = slots[s].next;
            proof {
                assert(node_at(self.order@, lo) == s);
                self.lo@ = lo + 1;
                assert(self.order@.subrange(lo + 1, hi) =~= self.order@.subrange(lo, hi).drop_first());
                assert(self@ =~= old(self)@.drop_first());
            }
        }
        match &slots[s].entry {
            Some(e) => Some((&e.0, &e.1)),
            None => None,
        }
    }

    /// The last entry of the walk.
    pub fn next_back(&mut self) -> (r: Option<(&'a K, &'a V)>)
        requires
            old(self).wf(),
        ensures
            final(self).wf(),
            old(self)@.len() == 0 ==> r is None && final(self)@ == old(self)@,
            old(self)@.len() > 0 ==> {
                &&& (r matches Some(e) && (*e.0, *e.1) == old(self)@.last())
                &&& final(self)@ == old(self)@.drop_last()
            },
    {
        if self.len == 0 {
            return None;
        }
        let slots: &'a Vec<EntryNode<K, V>> = self.slots;
        let s = self.end;
        let ghost lo = self.lo@;
        let ghost hi = self.lo@ + self.len;
        proof {
            let at = if self.reversed { lo } else { hi - 1 };
            assert(s == self.order@[at]);
            assert(slots@[self.order@[at] as int].entry is Some);
        }
        self.len = self.len - 1;
        if self.reversed {
            self.end = slots[s].next;
            proof {
                assert(node_at(self.order@, lo) == s);
                self.lo@ = lo + 1;
                assert(self.order@.subrange(lo + 1, hi) =~= self.order@.subrange(lo, hi).drop_first());
                assert(self@ =~= old(self)@.drop_last());
            }
        } else {
            self.end = slots[s].prev;
            proof {
                assert(node_at(self.order@, hi - 1) == s);
                assert(self.order@.subrange(lo, hi - 1) =~= self.order@.subrange(lo, hi).drop_last());
                assert(self@ =~= old(self)@.drop_last());
            }
        }
        match &slots[s].entry {
            Some(e) => Some((&e.0, &e.1)),
            None => None,
        }
    }
}

impl<'a, K, V> Clone for Iter<'a, K, V> {
    /// A second walk that stands where this one stands.
    fn clone(&self) -> (it: Self)
        ensures
            it@ == self@,
            it.wf() == self.wf(),
    {
        Iter {
            slots: self.slots,
            ptr: self.ptr,
            end: self.end,
            len: self.len,
            reversed: self.reversed,
            order: Ghost(self.order@),
            lo: Ghost(self.lo@),
        }
    }
}

/// The keys of a sequence of entries.
pub open spec fn keys_of<K, V>(s: Seq<(K, V)>) -> Seq<K> {
    s.map_values(|e: (K, V)| e.0)
}

/// A walk over the keys of a cache that can be advanced from both ends.
///
/// Its model, `self@`, is the sequence of the keys still to come.
pub struct Keys<'a, K, V> {
    inner: Iter<'a, K, V>,
}

impl<'a, K, V> View for Keys<'a, K, V> {
    type V = Seq<K>;

    closed spec fn view(&self) -> Seq<K> {
        keys_of(self.inner@)
    }
}

impl<'a, K, V> Keys<'a, K, V> {
    /// The walk stands inside a sound list.
    pub closed spec fn wf(&self) -> bool {
        self.inner.wf()
    }

    /// The keys of the entries that `inner` walks over.
    pub(crate) fn over(inner: Iter<'a, K, V>) -> (it: Self)
        requires
            inner.wf(),
        ensures
            it.wf(),
            it@ == keys_of(inner@),
    {
        Keys { inner }
    }

    /// The number of keys still to come.
    pub fn len(&self) -> (n: usize)
        requires
            self.wf(),
        ensures
            n == self@.len(),
    {
        self.inner.len()
    }

    /// The next key of the walk.
    pub fn next(&mut self) -> (r: Option<&'a K>)
        requires
            old(self).wf(),
        ensures
            final(self).wf(),
            old(self)@.len() == 0 ==> r is None && final(self)@ == old(self)@,
            old(self)@.len() > 0 ==> {
                &&& (r matches Some(k) && *k == old(self)@.first())
                &&& final(self)@ == old(self)@.drop_first()
            },
    {
        let r = match self.inner.next() {
            Some(e) => Some(e.0),
            None => None,
        };
        proof {
            if old(self)@.len() > 0 {
                assert(self@ =~= old(self)@.drop_first());
            }
        }
        r
    }

    /// The last key of the walk.
    pub fn next_back(&mut self) -> (r: Option<&'a K>)
        requires
            old(self).wf(),
        ensures
            final(self).wf(),
            old(self)@.len() == 0 ==> r is None && final(self)@ == old(self)@,
            old(self)@.len() > 0 ==> {
                &&& (r matches Some(k) && *k == old(self)@.last())
                &&& final(self)@ == old(self)@.drop_last()
            },
    {
        let r = match self.inner.next_back() {
            Some(e) => Some(e.0),
            None => None,
        };
        proof {
            if old(self)@.len() > 0 {
                assert(self@ =~= old(self)@.drop_last());
            }
        }
        r
    }
}

/// A walk over the entries of a cache that lends each value for change.
///
/// Its model, `self@`, is the sequence of the entries still to come, with the
/// values they hold now. While the walk lives it holds the cache, `target`;
/// what is written through the walk is written to the cache.
pub struct IterMut<'a, K, V, E, I> {
    cache: &'a mut RawLRU<K, V, E, I>,
    /// The slot that `next` yields.
    ptr: usize,
    /// The slot that `next_back` yields.
    end: usize,
    len: usize,
    /// Whether the walk runs from the least recently used entry upwards.
    reversed: bool,
    /// The list position of the first entry still to come, in list order.
    lo: Ghost<int>,
}

impl<'a, K: Clone, V, E: OnEvictCallback, I: KeyIndex<K>> View for IterMut<'a, K, V, E, I> {
    type V = Seq<(K, V)>;

    closed spec fn view(&self) -> Seq<(K, V)> {
        let w = self.cache@.subrange(self.lo@, self.lo@ + self.len);
        if self.reversed {
            w.reverse()
        } else {
            w
        }
    }
}

impl<'a, K: Clone, V, E: OnEvictCallback, I: KeyIndex<K>> IterMut<'a, K, V, E, I> {
    /// The cache that the walk holds.
    pub closed spec fn target(&self) -> &'a mut RawLRU<K, V, E, I> {
        self.cache
    }

    /// The list position, in the cache, of the first entry still to come,
    /// counted from the most recently used entry.
    pub closed spec fn lo(&self) -> int {
        self.lo@
    }

    /// Whether the walk runs from the least recently used entry upwards.
    pub closed spec fn is_reversed(&self) -> bool {
        self.reversed
    }

    /// The list position, in the cache, of the entry that `next` yields.
    pub open spec fn front(&self) -> int {
        if self.is_reversed() {
            self.lo() + self@.len() - 1
        } else {
            self.lo()
        }
    }

    /// The list position, in the cache, of the entry that `next_back` yields.
    pub open spec fn back(&self) -> int {
        if self.is_reversed() {
            self.lo()
        } else {
            self.lo() + self@.len() - 1
        }
    }

    /// The walk stands inside a sound cache.
    pub closed spec fn wf(&self) -> bool {
        &&& self.cache.wf()
        &&& 0 <= self.lo@
        &&& self.lo@ + self.len <= self.cache@.len()
        &&& self.len > 0 ==> {
            &&& self.ptr == self.cache.slot_at(self.front())
            &&& self.end == self.cache.slot_at(self.back())
        }
    }

    /// The cache that a sound walk holds is sound, and the entries still to
    /// come are entries of it.
    pub proof fn lemma_target(&self)
        requires
            self.wf(),
        ensures
            self.target().wf(),
            0 <= self.lo(),
            self.lo() + self@.len() <= self.target()@.len(),
            !self.is_reversed() ==> self@ == self.target()@.subrange(self.lo(), self.lo() + self@.len()),
            self.is_reversed() ==> {
                self@ == self.target()@.subrange(self.lo(), self.lo() + self@.len()).reverse()
            },
    {
    }

    /// Once the walk has lent its last value, the cache it holds is the cache
    /// that its holder gets back.
    pub proof fn lemma_done(&self)
        requires
            has_resolved(*self),
        ensures
            *self.target() == *final(self.target()),
    {
    }

    /// A walk over all entries of `cache`, from the front or, if `reversed`,
    /// from the back.
    pub(crate) fn over(cache: &'a mut RawLRU<K, V, E, I>, reversed: bool) -> (it: Self)
        requires
            old(cache).wf(),
        ensures
            it.wf(),
            *it.target() == *old(cache),
            *final(it.target()) == *final(cache),
            it.lo() == 0,
            it.is_reversed() == reversed,
            !reversed ==> it@ == old(cache)@,
            reversed ==> it@ == old(cache)@.reverse(),
    {
        let len = cache.len();
        let first = cache.first_slot();
        let last = cache.last_slot();
        proof {
            assert(cache@.subrange(0, cache@.len() as int) =~= cache@);
        }
        IterMut {
            cache,
            ptr: if reversed { last } else { first },
            end: if reversed { first } else { last },
            len,
            reversed,
            lo: Ghost(0),
        }
    }

    /// The number of entries still to come.
    pub fn len(&self) -> (n: usize)
        requires
            self.wf(),
        ensures
            n == self@.len(),
    {
        self.len
    }

    /// The next entry of the walk: its key, and its value to read or to
    /// change. A change shows in the cache, at the place of that entry.
    pub fn next(&mut self) -> (r: Option<(&K, &mut V)>)
        requires
            old(self).wf(),
        ensures
            final(self).wf(),
            *final(final(self).target()) == *final(old(self).target()),
            final(self).target().spec_cap() == old(self).target().spec_cap(),
            final(self).target().notified() == old(self).target().notified(),
            final(self).is_reversed() == old(self).is_reversed(),
            final(self).lo() == old(self).lo() + if r is Some && !old(self).is_reversed() { 1int } else { 0int },
            r is Some <==> old(self)@.len() > 0,
            r is None ==> final(self)@ == old(self)@ && final(self).target()@ == old(self).target()@,
            r matches Some(e) ==> {
                &&& (*e.0, *e.1) == old(self)@.first()
                &&& final(self)@ == old(self)@.drop_first()
                &&& final(self).target()@ == old(self).target()@.update(
                    old(self).front(),
                    (*e.0, *final(e.1)),
                )
                &&& value_frame(old(self).target()@, final(self).target()@, *e.0)
            },
    {
        if self.len == 0 {
            return None;
        }
        let s = self.ptr;
        let ghost lo = self.lo@;
        let ghost hi = self.lo@ + self.len;
        let ghost at = self.front();
        let ghost before = self.cache@;
        self.len = self.len - 1;
        if self.reversed {
            self.ptr = self.cache.slot_before(s, Ghost(at));
        } else {
            self.ptr = self.cache.slot_after(s, Ghost(at));
            proof {
                self.lo@ = lo + 1;
            }
        }
        proof {
            assert forall|w: V| #![trigger before.update(at, (before[at].0, w))]
                {
                    let after = before.update(at, (before[at].0, w));
                    &&& after.subrange(self.lo@, self.lo@ + self.len) == before.subrange(
                        self.lo@,
                        self.lo@ + self.len,
                    )
                    &&& after.len() == before.len()
                } by {
                let after = before.update(at, (before[at].0, w));
                assert(after.subrange(self.lo@, self.lo@ + self.len) =~= before.subrange(
                    self.lo@,
                    self.lo@ + self.len,
                ));
            }
            if self.reversed {
                assert(before.subrange(lo, hi - 1).reverse() =~= before.subrange(lo, hi).reverse().drop_first());
            } else {
                assert(before.subrange(lo + 1, hi) =~= before.subrange(lo, hi).drop_first());
            }
        }
        Some(self.cache.slot_entry_mut(s, Ghost(at)))
    }

    /// The last entry of the walk: its key, and its value to read or to
    /// change. A change shows in the cache, at the place of that entry.
    pub fn next_back(&mut self) -> (r: Option<(&K, &mut V)>)
        requires
            old(self).wf(),
        ensures
            final(self).wf(),
            *final(final(self).target()) == *final(old(self).target()),
            final(self).target().spec_cap() == old(self).target().spec_cap(),
            final(self).target().notified() == old(self).target().notified(),
            final(self).is_reversed() == old(self).is_reversed(),
            final(self).lo() == old(self).lo() + if r is Some && old(self).is_reversed() { 1int } else { 0int },
            r is Some <==> old(self)@.len() > 0,
            r is None ==> final(self)@ == old(self)@ && final(self).target()@ == old(self).target()@,
            r matches Some(e) ==> {
                &&& (*e.0, *e.1) == old(self)@.last()
                &&& final(self)@ == old(self)@.drop_last()
                &&& final(self).target()@ == old(self).target()@.update(
                    old(self).back(),
                    (*e.0, *final(e.1)),
                )
                &&& value_frame(old(self).target()@, final(self).target()@, *e.0)
            },
    {
        if self.len == 0 {
            return None;
        }
        let s = self.end;
        let ghost lo = self.lo@;
        let ghost hi = self.lo@ + self.len;
        let ghost at = self.back();
        let ghost before = self.cache@;
        self.len = self.len - 1;
        if self.reversed {
            self.end = self.cache.slot_after(s, Ghost(at));
            proof {
                self.lo@ = lo + 1;
            }
        } else {
            self.end = self.cache.slot_before(s, Ghost(at));
        }
        proof {
            assert forall|w: V| #![trigger before.update(at, (before[at].0, w))]
                {
                    let after = before.update(at, (before[at].0, w));
                    &&& after.subrange(self.lo@, self.lo@ + self.len) == before.subrange(
                        self.lo@,
                        self.lo@ + self.len,
                    )
                    &&& after.len() == before.len()
                } by {
                let after = before.update(at, (before[at].0, w));
                assert(after.subrange(self.lo@, self.lo@ + self.len) =~= before.subrange(
                    self.lo@,
                    self.lo@ + self.len,
                ));
            }
            if self.reversed {
                assert(before.subrange(lo + 1, hi).reverse() =~= before.subrange(lo, hi).reverse().drop_last());
            } else {
                assert(before.subrange(lo, hi - 1) =~= before.subrange(lo, hi).drop_last());
            }
        }
        Some(self.cache.slot_entry_mut(s, Ghost(at)))
    }
}

} // verus!
