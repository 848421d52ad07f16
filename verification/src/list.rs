//! The recency list: arena slots threaded between two sentinel slots.

use vstd::prelude::*;

verus! {

/// Slot of the head sentinel: its successor is the most recently used entry.
pub const HEAD: usize = 0;

/// Slot of the tail sentinel: its predecessor is the least recently used entry.
pub const TAIL: usize = 1;

/// One arena slot: an entry, if the slot is in use, and its two list links.
pub struct EntryNode<K, V> {
    pub entry: Option<(K, V)>,
    pub prev: usize,
    pub next: usize,
}

impl<K, V> EntryNode<K, V> {
    /// A slot that holds `key` and `val` and is not linked yet.
    pub fn new(key: K, val: V) -> (node: Self)
        ensures
            node.entry == Some((key, val)),
            node.prev == HEAD,
            node.next == TAIL,
    {
        EntryNode { entry: Some((key, val)), prev: HEAD, next: TAIL }
    }

    /// A sentinel slot: it never holds an entry.
    pub fn new_sigil() -> (node: Self)
        ensures
            node.entry is None,
            node.prev == HEAD,
            node.next == TAIL,
    {
        EntryNode { entry: None, prev: HEAD, next: TAIL }
    }
}

/// The slot at list position `j`, where position `-1` is the head sentinel and
/// position `order.len()` is the tail sentinel.
pub open spec fn node_at(order: Seq<usize>, j: int) -> usize {
    if j < 0 {
        HEAD
    } else if j >= order.len() {
        TAIL
    } else {
        order[j]
    }
}

/// `slots` threads exactly the slots of `order`, in that order, between the
/// two sentinels.
pub open spec fn linked<K, V>(slots: Seq<EntryNode<K, V>>, order: Seq<usize>) -> bool {
    &&& slots.len() >= 2
    &&& order.no_duplicates()
    &&& forall|i: int| 0 <= i < order.len() ==> 2 <= #[trigger] order[i] < slots.len()
    &&& forall|j: int|
        -1 <= j < order.len() ==> {
            &&& slots[#[trigger] node_at(order, j) as int].next == node_at(order, j + 1)
            &&& slots[node_at(order, j + 1) as int].prev == node_at(order, j)
        }
}

/// Two different list positions name two different slots.
pub proof fn lemma_node_at_injective(order: Seq<usize>, slots_len: nat, i: int, j: int)
    requires
        order.no_duplicates(),
        forall|i: int| 0 <= i < order.len() ==> 2 <= #[trigger] order[i] < slots_len,
        -1 <= i <= order.len(),
        -1 <= j <= order.len(),
        i != j,
    ensures
        node_at(order, i) != node_at(order, j),
{
}

/// Unlinks the slot at list position `p`; no entry moves.
pub(crate) fn detach<K, V>(
    slots: &mut Vec<EntryNode<K, V>>,
    s: usize,
    Ghost(order): Ghost<Seq<usize>>,
    Ghost(p): Ghost<int>,
)
    requires
        linked(old(slots)@, order),
        0 <= p < order.len(),
        order[p] == s,
    ensures
        linked(final(slots)@, order.remove(p)),
        final(slots)@.len() == old(slots)@.len(),
        forall|i: int|
            0 <= i < old(slots)@.len() ==> (#[trigger] final(slots)@[i]).entry == old(slots)@[i].entry,
{
    let prev = slots[s].prev;
    let next = slots[s].next;
    proof {
        assert(node_at(order, p) == s);
        assert(prev == node_at(order, p - 1));
        assert(next == node_at(order, p + 1));
    }
    slots[prev].next = next;
    slots[next].prev = prev;
    proof {
        let rest = order.remove(p);
        let n = old(slots)@.len();
        assert forall|j: int| -1 <= j < rest.len() implies {
            &&& slots@[#[trigger] node_at(rest, j) as int].next == node_at(rest, j + 1)
            &&& slots@[node_at(rest, j + 1) as int].prev == node_at(rest, j)
        } by {
            // Position `j` of the shorter list is position `a` of the longer one.
            let a = if j < p { j } else { j + 1 };
            let b = if j + 1 < p { j + 1 } else { j + 2 };
            assert(node_at(rest, j) == node_at(order, a));
            assert(node_at(rest, j + 1) == node_at(order, b));
            if a != p - 1 {
                lemma_node_at_injective(order, n, a, p - 1);
            }
            if b != p + 1 {
                lemma_node_at_injective(order, n, b, p + 1);
            }
            lemma_node_at_injective(order, n, p - 1, p + 1);
            assert(node_at(order, a + 1) == node_at(order, b) || a == p - 1);
        }
        assert(rest.no_duplicates()) by {
            order.remove_ensures(p);
            assert forall|i: int, j: int| 0 <= i < rest.len() && 0 <= j < rest.len() && i != j implies
                rest[i] != rest[j]
            by {
                let a = if i < p { i } else { i + 1 };
                let b = if j < p { j } else { j + 1 };
                assert(rest[i] == order[a]);
                assert(rest[j] == order[b]);
            }
        }
        assert forall|i: int| 0 <= i < rest.len() implies 2 <= #[trigger] rest[i] < slots@.len() by {
            let a = if i < p { i } else { i + 1 };
            assert(rest[i] == order[a]);
        }
    }
}

/// Links slot `s`, which is not in the list, directly behind the head
/// sentinel; no entry moves.
pub(crate) fn attach<K, V>(slots: &mut Vec<EntryNode<K, V>>, s: usize, Ghost(order): Ghost<Seq<usize>>)
    requires
        linked(old(slots)@, order),
        2 <= s < old(slots)@.len(),
        !order.contains(s),
    ensures
        linked(final(slots)@, seq![s] + order),
        final(slots)@.len() == old(slots)@.len(),
        forall|i: int|
            0 <= i < old(slots)@.len() ==> (#[trigger] final(slots)@[i]).entry == old(slots)@[i].entry,
{
    let first = slots[HEAD].next;
    proof {
        assert(node_at(order, -1) == HEAD);
        assert(first == node_at(order, 0));
    }
    slots[s].next = first;
    slots[s].prev = HEAD;
    slots[HEAD].next = s;
    slots[first].prev = s;
    proof {
        let more = seq![s] + order;
        let n = old(slots)@.len();
        assert forall|i: int| 0 <= i < more.len() implies 2 <= #[trigger] more[i] < slots@.len() by {
            if i > 0 {
                assert(more[i] == order[i - 1]);
            }
        }
        assert forall|i: int, j: int| 0 <= i < more.len() && 0 <= j < more.len() && i != j implies
            more[i] != more[j]
        by {
            if i > 0 {
                assert(more[i] == order[i - 1]);
            }
            if j > 0 {
                assert(more[j] == order[j - 1]);
            }
        }
        assert forall|j: int| -1 <= j < more.len() implies {
            &&& slots@[#[trigger] node_at(more, j) as int].next == node_at(more, j + 1)
            &&& slots@[node_at(more, j + 1) as int].prev == node_at(more, j)
        } by {
            if j >= 1 {
                // Positions behind the new slot kept their links.
                assert(node_at(more, j) == node_at(order, j - 1));
                assert(node_at(more, j + 1) == node_at(order, j));
                lemma_node_at_injective(order, n, j - 1, -1);
                if j > 1 {
                    lemma_node_at_injective(order, n, j, 0);
                }
                assert(node_at(order, j - 1) != s);
                assert(node_at(order, j) != s);
            } else if j == 0 {
                assert(node_at(more, 0) == s);
                assert(node_at(more, 1) == node_at(order, 0));
            } else {
                assert(node_at(more, -1) == HEAD);
                assert(node_at(more, 0) == s);
            }
        }
    }
}

/// Removing position `p` from a duplicate-free sequence removes exactly the
/// item that stood there.
pub proof fn lemma_remove_members(order: Seq<usize>, p: int)
    requires
        order.no_duplicates(),
        0 <= p < order.len(),
    ensures
        forall|x: usize| #[trigger] order.remove(p).contains(x) <==> order.contains(x) && x != order[p],
{
    let rest = order.remove(p);
    assert forall|x: usize| #[trigger] rest.contains(x) <==> order.contains(x) && x != order[p] by {
        if rest.contains(x) {
            let i = rest.index_of(x);
            let a = if i < p { i } else { i + 1 };
            assert(order[a] == x);
        }
        if order.contains(x) && x != order[p] {
            let a = order.index_of(x);
            let i = if a < p { a } else { a - 1 };
            assert(rest[i] == x);
        }
    }
}

/// Putting `s` in front adds exactly `s`.
pub proof fn lemma_cons_members(order: Seq<usize>, s: usize)
    ensures
        forall|x: usize| #[trigger] (seq![s] + order).contains(x) <==> x == s || order.contains(x),
{
    let more = seq![s] + order;
    assert forall|x: usize| #[trigger] more.contains(x) <==> x == s || order.contains(x) by {
        if more.contains(x) {
            let i = more.index_of(x);
            if i > 0 {
                assert(order[i - 1] == x);
            }
        }
        if x == s {
            assert(more[0] == x);
        }
        if order.contains(x) {
            let a = order.index_of(x);
            assert(more[a + 1] == x);
        }
    }
}

/// `slots` with the value in slot `s` replaced by `w`.
pub open spec fn revalued<K, V>(slots: Seq<EntryNode<K, V>>, s: usize, w: V) -> Seq<EntryNode<K, V>> {
    slots.update(
        s as int,
        EntryNode {
            entry: Some((slots[s as int].entry.unwrap().0, w)),
            prev: slots[s as int].prev,
            next: slots[s as int].next,
        },
    )
}

/// The value in slot `s`, to read or to change.
pub(crate) fn value_mut<K, V>(slots: &mut Vec<EntryNode<K, V>>, s: usize) -> (v: &mut V)
    requires
        s < old(slots)@.len(),
        old(slots)@[s as int].entry is Some,
    ensures
        *v == old(slots)@[s as int].entry.unwrap().1,
        final(slots)@ == revalued(old(slots)@, s, *final(v)),
{
    match &mut slots[s].entry {
        Some(e) => &mut e.1,
        None => unreached(),
    }
}

/// The entry in slot `s`: its key to read, its value to read or to change.
pub(crate) fn entry_mut<K, V>(slots: &mut Vec<EntryNode<K, V>>, s: usize) -> (e: (&K, &mut V))
    requires
        s < old(slots)@.len(),
        old(slots)@[s as int].entry is Some,
    ensures
        (*e.0, *e.1) == old(slots)@[s as int].entry.unwrap(),
        final(slots)@ == revalued(old(slots)@, s, *final(e.1)),
{
    match &mut slots[s].entry {
        Some(e) => (&e.0, &mut e.1),
        None => unreached(),
    }
}

} // verus!
