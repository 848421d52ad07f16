//! What holds of every cache, stated over the model and proved once.

use crate::model::{
    after_get, after_put, distinct_keys, has_key, key_index, lemma_after_put_front,
    lemma_after_put_keys, lemma_without_key_keys, lru_first, put_evicts, put_outcome, value_of,
    without_key,
};
use crate::result::PutResult;
use crate::tiers::{
    space_evicts, tiers_after_get, tiers_after_put, tiers_after_remove, tiers_sound, with_space, Quotas,
    Tiers,
};
use vstd::prelude::*;

verus! {

/// A cache after the entries of `items` were put into it one after the other.
pub open spec fn after_puts<K, V>(s: Seq<(K, V)>, cap: nat, items: Seq<(K, V)>) -> Seq<(K, V)>
    decreases items.len(),
{
    if items.len() == 0 {
        s
    } else {
        after_put(after_puts(s, cap, items.drop_last()), cap, items.last().0, items.last().1)
    }
}

/// A put keeps a cache within its capacity and its keys distinct.
pub proof fn law_put_keeps_capacity<K, V>(s: Seq<(K, V)>, cap: nat, k: K, v: V)
    requires
        cap > 0,
        s.len() <= cap,
        distinct_keys(s),
    ensures
        after_put(s, cap, k, v).len() <= cap,
        distinct_keys(after_put(s, cap, k, v)),
{
    let t = after_put(s, cap, k, v);
    let rest = t.drop_first();
    if has_key(s, k) {
        lemma_without_key_keys(s, k);
        assert(rest =~= without_key(s, k));
    } else if s.len() >= cap {
        crate::model::lemma_drop_last_keys(s);
        assert(rest =~= s.drop_last());
        assert(!has_key(rest, k)) by {
            if has_key(rest, k) {
                assert(has_key(s, k));
            }
        }
    } else {
        assert(rest =~= s);
    }
    assert(!has_key(rest, k));
    assert forall|i: int, j: int| 0 <= i < t.len() && 0 <= j < t.len() && i != j implies
            (#[trigger] t[i]).0 != (#[trigger] t[j]).0
        by {
        if i > 0 && j > 0 {
            assert(t[i] == rest[i - 1]);
            assert(t[j] == rest[j - 1]);
        } else if i == 0 {
            assert(t[j] == rest[j - 1]);
            assert(rest[j - 1].0 != k);
        } else {
            assert(t[i] == rest[i - 1]);
            assert(rest[i - 1].0 != k);
        }
    }
}

/// However many entries are put into an empty cache, it never holds more
/// than its capacity, and never a key twice.
pub proof fn law_puts_keep_capacity<K, V>(cap: nat, items: Seq<(K, V)>)
    requires
        cap > 0,
    ensures
        after_puts(Seq::<(K, V)>::empty(), cap, items).len() <= cap,
        distinct_keys(after_puts(Seq::<(K, V)>::empty(), cap, items)),
    decreases items.len(),
{
    if items.len() > 0 {
        law_puts_keep_capacity(cap, items.drop_last());
        law_put_keeps_capacity(
            after_puts(Seq::<(K, V)>::empty(), cap, items.drop_last()),
            cap,
            items.last().0,
            items.last().1,
        );
    }
}

/// A put of a key that is present does not grow the cache, reports the value
/// it replaces, and a read of the key then finds the new value.
pub proof fn law_update_in_place<K, V>(s: Seq<(K, V)>, cap: nat, k: K, v: V)
    requires
        cap > 0,
        s.len() <= cap,
        distinct_keys(s),
        has_key(s, k),
    ensures
        after_put(s, cap, k, v).len() == s.len(),
        put_outcome(s, cap, k) == PutResult::<K, V>::Update(value_of(s, k).unwrap()),
        value_of(after_put(s, cap, k, v), k) == Some(v),
        value_of(after_get(after_put(s, cap, k, v), k), k) == Some(v),
{
    law_put_keeps_capacity(s, cap, k, v);
    lemma_after_put_front(s, cap, k, v);
    let t = after_put(s, cap, k, v);
    assert(after_get(t, k) =~= t);
}

/// While an empty cache has room, the entries put into it, with keys that
/// differ, stand in it in the reverse order of their coming.
pub proof fn lemma_puts_stack<K, V>(cap: nat, items: Seq<(K, V)>)
    requires
        items.len() <= cap,
        distinct_keys(items),
    ensures
        after_puts(Seq::<(K, V)>::empty(), cap, items) == items.reverse(),
    decreases items.len(),
{
    if items.len() > 0 {
        let head = items.drop_last();
        lemma_puts_stack(cap, head);
        let s = head.reverse();
        let k = items.last().0;
        assert(!has_key(s, k)) by {
            if has_key(s, k) {
                let i = key_index(s, k);
                assert(s[i] == items[head.len() - 1 - i]);
                assert(items[head.len() - 1 - i].0 != items[items.len() - 1].0);
            }
        }
        assert(after_put(s, cap, k, items.last().1) =~= items.reverse());
    } else {
        assert(after_puts(Seq::<(K, V)>::empty(), cap, items) =~= items.reverse());
    }
}

/// First in, first out under pressure: when one entry more than an empty
/// cache holds is put into it, all keys differing and nothing read in
/// between, the last put evicts the entry that was put first.
pub proof fn law_first_in_first_out<K, V>(cap: nat, items: Seq<(K, V)>)
    requires
        cap > 0,
        items.len() == cap + 1,
        distinct_keys(items),
    ensures
        put_outcome(after_puts(Seq::<(K, V)>::empty(), cap, items.drop_last()), cap, items.last().0)
            == (PutResult::<K, V>::Evicted { key: items[0].0, value: items[0].1 }),
{
    let head = items.drop_last();
    assert(distinct_keys(head)) by {
        assert forall|i: int, j: int| 0 <= i < head.len() && 0 <= j < head.len() && i != j implies
            (#[trigger] head[i]).0 != (#[trigger] head[j]).0
        by {
            assert(head[i] == items[i]);
            assert(head[j] == items[j]);
        }
    }
    lemma_puts_stack(cap, head);
    let s = head.reverse();
    let k = items.last().0;
    assert(!has_key(s, k)) by {
        if has_key(s, k) {
            let i = key_index(s, k);
            assert(s[i] == items[head.len() - 1 - i]);
            assert(items[head.len() - 1 - i].0 != items[items.len() - 1].0);
        }
    }
    assert(s.last() == items[0]);
}

/// A read that finds its key makes that entry the first of the cache, so a
/// walk from the most recently used entry starts with it.
pub proof fn law_read_promotes<K, V>(s: Seq<(K, V)>, k: K)
    requires
        distinct_keys(s),
        has_key(s, k),
    ensures
        after_get(s, k).len() == s.len(),
        after_get(s, k).first().0 == k,
        Some(after_get(s, k).first().1) == value_of(s, k),
{
}

/// A cache that gives up all its entries gives them up from the least
/// recently used to the most recently used: one report for each entry.
pub proof fn law_gives_up_in_reverse<K, V>(s: Seq<(K, V)>)
    ensures
        lru_first(s, s.len()) == s.reverse(),
        lru_first(s, s.len()).len() == s.len(),
{
    assert(lru_first(s, s.len()) =~= s.reverse());
}

/// What a shrinking cache keeps and what it gives up make up what it had: it
/// keeps the most recently used entries and gives up the others, the least
/// recently used first.
pub proof fn law_shrink_takes_oldest<K, V>(s: Seq<(K, V)>, cap: nat)
    requires
        cap < s.len(),
    ensures
        crate::model::excess(s.len(), cap) == s.len() - cap,
        s.subrange(0, cap as int) + lru_first(s, (s.len() - cap) as nat).reverse() == s,
{
    let n = (s.len() - cap) as nat;
    assert(s.subrange(0, cap as int) + lru_first(s, n).reverse() =~= s);
}

/// A single-tier put into a tier that fits its capacity leaves a tier that
/// fits it, with the key that was put and no key that it had not.
proof fn lemma_tier_put<K, V>(s: Seq<(K, V)>, cap: nat, k: K, v: V)
    requires
        cap > 0,
        s.len() <= cap,
        distinct_keys(s),
    ensures
        after_put(s, cap, k, v).len() <= cap,
        after_put(s, cap, k, v).len() <= s.len() + 1,
        has_key(s, k) ==> after_put(s, cap, k, v).len() == s.len(),
        distinct_keys(after_put(s, cap, k, v)),
        forall|q: K| #[trigger] has_key(after_put(s, cap, k, v), q) ==> q == k || has_key(s, q),
{
    law_put_keeps_capacity(s, cap, k, v);
    lemma_after_put_keys(s, cap, k, v);
}

/// Making room leaves the tiers sound and, where the quota of `recent` is
/// below the budget, leaves room for one more entry.
pub proof fn law_space_is_made<K, V>(t: Tiers<K, V>, q: Quotas, from_ghost: bool)
    requires
        tiers_sound(t, q),
    ensures
        tiers_sound(with_space(t, q, from_ghost), q),
        q.recent_size < q.size ==> with_space(t, q, from_ghost).recent.len() + with_space(
            t,
            q,
            from_ghost,
        ).frequent.len() < q.size,
        forall|k: K| #[trigger] has_key(with_space(t, q, from_ghost).recent, k) ==> has_key(t.recent, k),
        forall|k: K| #[trigger] has_key(with_space(t, q, from_ghost).frequent, k) ==> has_key(t.frequent, k),
        forall|k: K| #[trigger]
            has_key(with_space(t, q, from_ghost).ghosts, k) ==> has_key(t.ghosts, k) || has_key(t.recent, k),
{
    let s = with_space(t, q, from_ghost);
    if t.recent.len() + t.frequent.len() < q.size {
    } else if crate::tiers::demotes(t, q, from_ghost) {
        let e = t.recent.last();
        crate::model::lemma_drop_last_keys(t.recent);
        lemma_tier_put(t.ghosts, q.ghost_size, e.0, e.1);
        assert(has_key(t.recent, e.0)) by {
            assert(t.recent[t.recent.len() - 1].0 == e.0);
        }
    } else if t.frequent.len() > 0 {
        crate::model::lemma_drop_last_keys(t.frequent);
    } else {
    }
}

/// The budget holds across puts: a put leaves sound tiers sound, so that
/// `recent` and `frequent` together hold no more entries than the budget
/// whenever the quota of `recent` is below it.
pub proof fn law_put_keeps_budget<K, V>(t: Tiers<K, V>, q: Quotas, k: K, v: V)
    requires
        tiers_sound(t, q),
    ensures
        tiers_sound(tiers_after_put(t, q, k, v), q),
        q.recent_size < q.size ==> tiers_after_put(t, q, k, v).recent.len() + tiers_after_put(
            t,
            q,
            k,
            v,
        ).frequent.len() <= q.size,
{
    if has_key(t.frequent, k) {
        lemma_tier_put(t.frequent, q.size, k, v);
    } else if has_key(t.recent, k) {
        lemma_without_key_keys(t.recent, k);
        lemma_tier_put(t.frequent, q.size, k, v);
    } else if has_key(t.ghosts, k) {
        law_space_is_made(t, q, true);
        let s = with_space(t, q, true);
        lemma_without_key_keys(s.ghosts, k);
        lemma_tier_put(s.frequent, q.size, k, v);
    } else {
        law_space_is_made(t, q, false);
        let s = with_space(t, q, false);
        lemma_tier_put(s.recent, q.size, k, v);
    }
}

/// The budget holds across reads.
pub proof fn law_get_keeps_budget<K, V>(t: Tiers<K, V>, q: Quotas, k: K)
    requires
        tiers_sound(t, q),
    ensures
        tiers_sound(tiers_after_get(t, q, k), q),
        q.recent_size < q.size ==> tiers_after_get(t, q, k).recent.len() + tiers_after_get(
            t,
            q,
            k,
        ).frequent.len() <= q.size,
{
    if has_key(t.frequent, k) {
        crate::model::lemma_after_get_keys(t.frequent, k);
        let p = key_index(t.frequent, k);
        let f = after_get(t.frequent, k);
        assert forall|i: int, j: int| 0 <= i < f.len() && 0 <= j < f.len() && i != j implies
            (#[trigger] f[i]).0 != (#[trigger] f[j]).0
        by {
            let a = if i == 0 { p } else if i - 1 < p { i - 1 } else { i };
            let b = if j == 0 { p } else if j - 1 < p { j - 1 } else { j };
            assert(f[i] == t.frequent[a]);
            assert(f[j] == t.frequent[b]);
        }
    } else if has_key(t.recent, k) {
        let e = t.recent[key_index(t.recent, k)];
        lemma_without_key_keys(t.recent, k);
        lemma_tier_put(t.frequent, q.size, e.0, e.1);
    } else {
    }
}

/// The budget holds across removals.
pub proof fn law_remove_keeps_budget<K, V>(t: Tiers<K, V>, q: Quotas, k: K)
    requires
        tiers_sound(t, q),
    ensures
        tiers_sound(tiers_after_remove(t, k), q),
        q.recent_size < q.size ==> tiers_after_remove(t, k).recent.len() + tiers_after_remove(
            t,
            k,
        ).frequent.len() <= q.size,
{
    lemma_without_key_keys(t.frequent, k);
    lemma_without_key_keys(t.recent, k);
    lemma_without_key_keys(t.ghosts, k);
}

/// A layered put pushes at most one entry out of the cache for good, as long
/// as the quota of `recent` is no more than the budget: where making room
/// took an entry from `frequent`, the tier that takes the new entry has room.
pub proof fn law_one_departure_per_put<K, V>(t: Tiers<K, V>, q: Quotas, k: K)
    requires
        tiers_sound(t, q),
        q.recent_size <= q.size,
    ensures
        space_evicts(t, q, true) is Some ==> put_evicts(with_space(t, q, true).frequent, q.size, k) is None,
        space_evicts(t, q, false) is Some ==> put_evicts(with_space(t, q, false).recent, q.size, k) is None,
{
}

} // verus!
