//! The node store: what it means for an arena of slots, the recency list
//! threaded through it, the free slots and the key index to describe one
//! cache, and what keeps them in agreement.

use crate::list::{lemma_cons_members, linked, revalued, EntryNode};
use crate::model::distinct_keys;
use vstd::prelude::*;

verus! {

/// The entries of the slots `order`, in that order.
pub open spec fn entries_of<K, V>(slots: Seq<EntryNode<K, V>>, order: Seq<usize>) -> Seq<(K, V)> {
    order.map_values(|s: usize| slots[s as int].entry.unwrap())
}

/// The key of the entry in slot `s`.
pub open spec fn key_at<K, V>(slots: Seq<EntryNode<K, V>>, s: usize) -> K {
    slots[s as int].entry.unwrap().0
}

/// The list `order`, the free slots and the index describe the same cache:
/// every listed slot holds an entry, the index leads from each entry's key to
/// its slot and knows no other key, and no free slot is listed.
pub open spec fn agrees<K, V>(
    slots: Seq<EntryNode<K, V>>,
    order: Seq<usize>,
    free: Seq<usize>,
    index: Map<K, usize>,
) -> bool {
    &&& forall|s: usize| #[trigger] order.contains(s) ==> slots[s as int].entry is Some
    &&& free.no_duplicates()
    &&& forall|i: int|
        0 <= i < free.len() ==> {
            &&& 2 <= #[trigger] free[i] < slots.len()
            &&& !order.contains(free[i])
        }
    &&& forall|s: usize| #[trigger]
        order.contains(s) ==> {
            &&& index.contains_key(key_at(slots, s))
            &&& index[key_at(slots, s)] == s
        }
    &&& forall|k: K| #[trigger]
        index.contains_key(k) ==> {
            &&& order.contains(index[k])
            &&& key_at(slots, index[k]) == k
        }
}

/// Two slots are both empty, or hold entries with the same key.
pub open spec fn same_key<K, V>(a: EntryNode<K, V>, b: EntryNode<K, V>) -> bool {
    match (a.entry, b.entry) {
        (Some(x), Some(y)) => x.0 == y.0,
        (None, None) => true,
        _ => false,
    }
}

/// Relinking the slots of a cache in another order, or changing values,
/// leaves it in agreement.
pub proof fn lemma_agrees_reordered<K, V>(
    slots: Seq<EntryNode<K, V>>,
    order: Seq<usize>,
    free: Seq<usize>,
    index: Map<K, usize>,
    slots2: Seq<EntryNode<K, V>>,
    order2: Seq<usize>,
)
    requires
        agrees(slots, order, free, index),
        slots2.len() == slots.len(),
        forall|i: int| 0 <= i < slots.len() ==> same_key(#[trigger] slots2[i], slots[i]),
        forall|i: int| 0 <= i < order.len() ==> #[trigger] order[i] < slots.len(),
        forall|x: usize| #[trigger] order2.contains(x) <==> order.contains(x),
    ensures
        agrees(slots2, order2, free, index),
{
    assert forall|s: usize| #[trigger] order2.contains(s) implies {
        &&& slots2[s as int].entry is Some
        &&& index.contains_key(key_at(slots2, s))
        &&& index[key_at(slots2, s)] == s
    } by {
        assert(order.contains(s));
        let i = order.index_of(s);
        assert(order[i] < slots.len());
        assert(same_key(slots2[s as int], slots[s as int]));
    }
    assert forall|k: K| #[trigger] index.contains_key(k) implies {
        &&& order2.contains(index[k])
        &&& key_at(slots2, index[k]) == k
    } by {
        let s = index[k];
        assert(order.contains(s));
        let i = order.index_of(s);
        assert(order[i] < slots.len());
        assert(same_key(slots2[s as int], slots[s as int]));
    }
}

/// Listing a fresh slot `s` that holds `(k, _)`, with `k` new to the index,
/// and indexing it leaves the cache in agreement.
pub proof fn lemma_agrees_inserted<K, V>(
    slots: Seq<EntryNode<K, V>>,
    order: Seq<usize>,
    free: Seq<usize>,
    index: Map<K, usize>,
    slots2: Seq<EntryNode<K, V>>,
    free2: Seq<usize>,
    s: usize,
    k: K,
)
    requires
        agrees(slots, order, free, index),
        !index.contains_key(k),
        !order.contains(s),
        slots2.len() >= slots.len(),
        s < slots2.len(),
        slots2[s as int].entry is Some,
        key_at(slots2, s) == k,
        forall|i: int| 0 <= i < slots.len() && i != s ==> (#[trigger] slots2[i]).entry == slots[i].entry,
        forall|i: int| 0 <= i < order.len() ==> #[trigger] order[i] < slots.len(),
        free2.no_duplicates(),
        forall|i: int| 0 <= i < free2.len() ==> free.contains(#[trigger] free2[i]) && free2[i] != s,
    ensures
        agrees(slots2, seq![s] + order, free2, index.insert(k, s)),
{
    let order2 = seq![s] + order;
    let index2 = index.insert(k, s);
    lemma_cons_members(order, s);
    assert forall|x: usize| #[trigger] order2.contains(x) implies {
        &&& slots2[x as int].entry is Some
        &&& index2.contains_key(key_at(slots2, x))
        &&& index2[key_at(slots2, x)] == x
    } by {
        if x != s {
            assert(order.contains(x));
            let i = order.index_of(x);
            assert(order[i] < slots.len());
            assert(slots2[x as int].entry == slots[x as int].entry);
            assert(index.contains_key(key_at(slots, x)));
        }
    }
    assert forall|j: int| 0 <= j < free2.len() implies {
        &&& 2 <= #[trigger] free2[j] < slots2.len()
        &&& !order2.contains(free2[j])
    } by {
        assert(free.contains(free2[j]));
        let i = free.index_of(free2[j]);
        assert(2 <= free[i] < slots.len());
    }
    assert forall|q: K| #[trigger] index2.contains_key(q) implies {
        &&& order2.contains(index2[q])
        &&& key_at(slots2, index2[q]) == q
    } by {
        if q != k {
            assert(index.contains_key(q));
            let x = index[q];
            assert(order.contains(x));
            let i = order.index_of(x);
            assert(order[i] < slots.len());
            assert(slots2[x as int].entry == slots[x as int].entry);
        }
    }
}

/// The arena is threaded in the order `order`, holds `len` entries, and
/// agrees with the index.
pub open spec fn sound<K, V>(
    slots: Seq<EntryNode<K, V>>,
    order: Seq<usize>,
    free: Seq<usize>,
    index: Map<K, usize>,
    len: usize,
) -> bool {
    &&& linked(slots, order)
    &&& len == order.len()
    &&& agrees(slots, order, free, index)
}

/// No key occurs twice in a sound cache.
pub proof fn lemma_sound_distinct<K, V>(
    slots: Seq<EntryNode<K, V>>,
    order: Seq<usize>,
    free: Seq<usize>,
    index: Map<K, usize>,
    len: usize,
)
    requires
        sound(slots, order, free, index, len),
    ensures
        distinct_keys(entries_of(slots, order)),
{
    let view = entries_of(slots, order);
    assert forall|i: int, j: int| 0 <= i < view.len() && 0 <= j < view.len() && i != j implies
            (#[trigger] view[i]).0 != (#[trigger] view[j]).0
        by {
        assert(order.contains(order[i]));
        assert(order.contains(order[j]));
        if view[i].0 == view[j].0 {
            assert(order[i] == order[j]);
        }
    }
}

/// A new value in a listed slot changes that entry's value and nothing else.
pub proof fn lemma_revalued<K, V>(
    slots: Seq<EntryNode<K, V>>,
    order: Seq<usize>,
    free: Seq<usize>,
    index: Map<K, usize>,
    len: usize,
    p: int,
    w: V,
)
    requires
        sound(slots, order, free, index, len),
        0 <= p < order.len(),
    ensures
        sound(revalued(slots, order[p], w), order, free, index, len),
        entries_of(revalued(slots, order[p], w), order) == entries_of(slots, order).update(
            p,
            (key_at(slots, order[p]), w),
        ),
        distinct_keys(entries_of(revalued(slots, order[p], w), order)),
{
    let s = order[p];
    let slots2 = revalued(slots, s, w);
    assert(order.contains(s));
    lemma_agrees_reordered(slots, order, free, index, slots2, order);
    assert(linked(slots2, order));
    assert(entries_of(slots2, order) =~= entries_of(slots, order).update(p, (key_at(slots, s), w)));
    lemma_sound_distinct(slots2, order, free, index, len);
}

} // verus!
