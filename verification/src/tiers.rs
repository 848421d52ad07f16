//! The model of the layered cache: its three tiers as sequences of entries,
//! and what a put, a read and a removal make of them.

use crate::laws::{law_get_keeps_budget, law_put_keeps_capacity, law_space_is_made};
use crate::model::{
    after_get, after_put, carried_over, distinct_keys, has_key, key_index, lemma_get_frame,
    lemma_put_frame, lemma_removal_frame, lemma_value_frame, lemma_without_key_keys, put_evicts,
    put_frame, removal_frame, value_frame, value_of, without_key,
};
use crate::result::PutResult;
use vstd::prelude::*;

verus! {

/// The model of a layered cache: the entries of its three tiers, each from
/// the most recently used to the least recently used.
pub struct Tiers<K, V> {
    pub recent: Seq<(K, V)>,
    pub frequent: Seq<(K, V)>,
    pub ghosts: Seq<(K, V)>,
}

/// The sizes a layered cache is built with.
pub struct Quotas {
    /// The budget that `recent` and `frequent` share.
    pub size: nat,
    /// How much of the budget `recent` may keep under pressure.
    pub recent_size: nat,
    /// The capacity of the ghost tier.
    pub ghost_size: nat,
}

/// Three empty tiers.
pub open spec fn empty_tiers<K, V>() -> Tiers<K, V> {
    Tiers { recent: Seq::empty(), frequent: Seq::empty(), ghosts: Seq::empty() }
}

/// No key occurs in both `a` and `b`.
pub open spec fn disjoint<K, V>(a: Seq<(K, V)>, b: Seq<(K, V)>) -> bool {
    forall|k: K| !(has_key(a, k) && has_key(b, k))
}

/// The tiers fit the quotas: no tier holds a key twice or more entries than
/// its capacity, no key is in two tiers, and `recent` and `frequent` together
/// keep within the budget whenever the quota of `recent` is below it.
pub open spec fn tiers_sound<K, V>(t: Tiers<K, V>, q: Quotas) -> bool {
    &&& q.size > 0
    &&& q.ghost_size > 0
    &&& distinct_keys(t.recent)
    &&& distinct_keys(t.frequent)
    &&& distinct_keys(t.ghosts)
    &&& disjoint(t.recent, t.frequent)
    &&& disjoint(t.recent, t.ghosts)
    &&& disjoint(t.frequent, t.ghosts)
    &&& t.recent.len() <= q.size
    &&& t.frequent.len() <= q.size
    &&& t.ghosts.len() <= q.ghost_size
    &&& q.recent_size < q.size ==> t.recent.len() + t.frequent.len() <= q.size
}

/// Whether making room has to take from `recent`: it holds more than its
/// quota, or just its quota while the newcomer is not a remembered key.
pub open spec fn demotes<K, V>(t: Tiers<K, V>, q: Quotas, from_ghost: bool) -> bool {
    &&& t.recent.len() > 0
    &&& (t.recent.len() > q.recent_size || (t.recent.len() == q.recent_size && !from_ghost))
}

/// The tiers after room was made for one more entry.
pub open spec fn with_space<K, V>(t: Tiers<K, V>, q: Quotas, from_ghost: bool) -> Tiers<K, V> {
    if t.recent.len() + t.frequent.len() < q.size {
        t
    } else if demotes(t, q, from_ghost) {
        Tiers {
            recent: t.recent.drop_last(),
            frequent: t.frequent,
            ghosts: after_put(t.ghosts, q.ghost_size, t.recent.last().0, t.recent.last().1),
        }
    } else if t.frequent.len() > 0 {
        Tiers { recent: t.recent, frequent: t.frequent.drop_last(), ghosts: t.ghosts }
    } else {
        t
    }
}

/// The entry that making room pushes out of the cache for good: the least
/// recently used one of `frequent`, when `recent` is not to give way.
pub open spec fn space_evicts<K, V>(t: Tiers<K, V>, q: Quotas, from_ghost: bool) -> Option<(K, V)> {
    if t.recent.len() + t.frequent.len() >= q.size && !demotes(t, q, from_ghost) && t.frequent.len() > 0 {
        Some(t.frequent.last())
    } else {
        None
    }
}

/// The first of two optional entries that is there.
pub open spec fn first_of<K, V>(a: Option<(K, V)>, b: Option<(K, V)>) -> Option<(K, V)> {
    if a is Some {
        a
    } else {
        b
    }
}

/// The tiers after `(k, v)` was put.
pub open spec fn tiers_after_put<K, V>(t: Tiers<K, V>, q: Quotas, k: K, v: V) -> Tiers<K, V> {
    if has_key(t.frequent, k) {
        Tiers { recent: t.recent, frequent: after_put(t.frequent, q.size, k, v), ghosts: t.ghosts }
    } else if has_key(t.recent, k) {
        Tiers {
            recent: without_key(t.recent, k),
            frequent: after_put(t.frequent, q.size, k, v),
            ghosts: t.ghosts,
        }
    } else if has_key(t.ghosts, k) {
        let s = with_space(t, q, true);
        Tiers {
            recent: s.recent,
            frequent: after_put(s.frequent, q.size, k, v),
            ghosts: without_key(s.ghosts, k),
        }
    } else {
        let s = with_space(t, q, false);
        Tiers { recent: after_put(s.recent, q.size, k, v), frequent: s.frequent, ghosts: s.ghosts }
    }
}

/// What a put of `k` reports.
///
/// A key in `frequent` is updated. A key in `recent`, or one that `ghost`
/// still remembers once room was made, is promoted: the put reports the value
/// it replaces, together with the entry that the promotion pushed out of the
/// cache, if any. Any other key is new.
pub open spec fn outcome_of_put<K, V>(t: Tiers<K, V>, q: Quotas, k: K) -> PutResult<K, V> {
    if has_key(t.frequent, k) {
        PutResult::Update(t.frequent[key_index(t.frequent, k)].1)
    } else if has_key(t.recent, k) {
        promoted(value_of(t.recent, k), put_evicts(t.frequent, q.size, k))
    } else if has_key(t.ghosts, k) {
        let s = with_space(t, q, true);
        promoted(
            value_of(s.ghosts, k),
            first_of(space_evicts(t, q, true), put_evicts(s.frequent, q.size, k)),
        )
    } else {
        let s = with_space(t, q, false);
        promoted(None, first_of(space_evicts(t, q, false), put_evicts(s.recent, q.size, k)))
    }
}

/// The report of a put that replaced the value `old`, if there was one, and
/// pushed out `evicted`, if there was one.
pub open spec fn promoted<K, V>(old: Option<V>, evicted: Option<(K, V)>) -> PutResult<K, V> {
    match (old, evicted) {
        (Some(update), Some(evicted)) => PutResult::EvictedAndUpdate { evicted, update },
        (Some(update), None) => PutResult::Update(update),
        (None, Some(evicted)) => PutResult::Evicted { key: evicted.0, value: evicted.1 },
        (None, None) => PutResult::Put,
    }
}

/// The tiers after a read of `k`: a hit in `frequent` refreshes the entry, a
/// hit in `recent` promotes it.
pub open spec fn tiers_after_get<K, V>(t: Tiers<K, V>, q: Quotas, k: K) -> Tiers<K, V> {
    if has_key(t.frequent, k) {
        Tiers { recent: t.recent, frequent: after_get(t.frequent, k), ghosts: t.ghosts }
    } else if has_key(t.recent, k) {
        let e = t.recent[key_index(t.recent, k)];
        Tiers {
            recent: without_key(t.recent, k),
            frequent: after_put(t.frequent, q.size, e.0, e.1),
            ghosts: t.ghosts,
        }
    } else {
        t
    }
}

/// The value that a read of `k` finds: the ghost tier is never asked.
pub open spec fn found_by_get<K, V>(t: Tiers<K, V>, k: K) -> Option<V> {
    if has_key(t.frequent, k) {
        value_of(t.frequent, k)
    } else {
        value_of(t.recent, k)
    }
}

/// The tiers after `k` was removed from the first tier that holds it.
pub open spec fn tiers_after_remove<K, V>(t: Tiers<K, V>, k: K) -> Tiers<K, V> {
    if has_key(t.frequent, k) {
        Tiers { recent: t.recent, frequent: without_key(t.frequent, k), ghosts: t.ghosts }
    } else if has_key(t.recent, k) {
        Tiers { recent: without_key(t.recent, k), frequent: t.frequent, ghosts: t.ghosts }
    } else {
        Tiers { recent: t.recent, frequent: t.frequent, ghosts: without_key(t.ghosts, k) }
    }
}

/// The value that a removal of `k` returns.
pub open spec fn found_by_remove<K, V>(t: Tiers<K, V>, k: K) -> Option<V> {
    if has_key(t.frequent, k) {
        value_of(t.frequent, k)
    } else if has_key(t.recent, k) {
        value_of(t.recent, k)
    } else {
        value_of(t.ghosts, k)
    }
}

/// What making room leaves as it was: in the tier that gave way its least
/// recently used entry is gone, a demoted entry is remembered by the ghost
/// tier, and every other key is where it was, with the value it had.
pub open spec fn space_frame<K, V>(t: Tiers<K, V>, s: Tiers<K, V>, q: Quotas, from_ghost: bool) -> bool {
    if t.recent.len() + t.frequent.len() < q.size {
        s == t
    } else if demotes(t, q, from_ghost) {
        &&& removal_frame(t.recent, s.recent, t.recent.last().0)
        &&& put_frame(t.ghosts, s.ghosts, q.ghost_size, t.recent.last().0, t.recent.last().1)
        &&& s.frequent == t.frequent
    } else if t.frequent.len() > 0 {
        &&& removal_frame(t.frequent, s.frequent, t.frequent.last().0)
        &&& s.recent == t.recent
        &&& s.ghosts == t.ghosts
    } else {
        s == t
    }
}

/// What a put leaves as it was, tier by tier: the key that was put is in the
/// tier it belongs to, with the value that was put, and every key that
/// neither gave way nor was put is where it was, with the value it had.
pub open spec fn tiers_put_frame<K, V>(t: Tiers<K, V>, n: Tiers<K, V>, q: Quotas, k: K, v: V) -> bool {
    if has_key(t.frequent, k) {
        &&& put_frame(t.frequent, n.frequent, q.size, k, v)
        &&& n.recent == t.recent
        &&& n.ghosts == t.ghosts
    } else if has_key(t.recent, k) {
        &&& removal_frame(t.recent, n.recent, k)
        &&& put_frame(t.frequent, n.frequent, q.size, k, v)
        &&& n.ghosts == t.ghosts
    } else if has_key(t.ghosts, k) {
        let s = with_space(t, q, true);
        &&& space_frame(t, s, q, true)
        &&& put_frame(s.frequent, n.frequent, q.size, k, v)
        &&& removal_frame(s.ghosts, n.ghosts, k)
        &&& n.recent == s.recent
    } else {
        let s = with_space(t, q, false);
        &&& space_frame(t, s, q, false)
        &&& put_frame(s.recent, n.recent, q.size, k, v)
        &&& n.frequent == s.frequent
        &&& n.ghosts == s.ghosts
    }
}

/// What a read leaves as it was, tier by tier: an entry found in `recent` is
/// in `frequent`, and every other key is where it was; all have the values
/// they had.
pub open spec fn tiers_get_frame<K, V>(t: Tiers<K, V>, n: Tiers<K, V>, q: Quotas, k: K) -> bool {
    if has_key(t.frequent, k) {
        &&& carried_over(t.frequent, n.frequent, None, None)
        &&& n.recent == t.recent
        &&& n.ghosts == t.ghosts
    } else if has_key(t.recent, k) {
        &&& removal_frame(t.recent, n.recent, k)
        &&& put_frame(t.frequent, n.frequent, q.size, k, value_of(t.recent, k).unwrap())
        &&& n.ghosts == t.ghosts
    } else {
        n == t
    }
}

/// What a removal leaves as it was, tier by tier: the key is gone from the
/// tier that held it, and every other key is where it was, with the value it
/// had.
pub open spec fn tiers_remove_frame<K, V>(t: Tiers<K, V>, n: Tiers<K, V>, k: K) -> bool {
    &&& removal_frame(t.frequent, n.frequent, k)
    &&& removal_frame(t.recent, n.recent, k)
    &&& removal_frame(t.ghosts, n.ghosts, k)
}

/// Making room keeps what `space_frame` says.
pub proof fn lemma_space_frame<K, V>(t: Tiers<K, V>, q: Quotas, from_ghost: bool)
    requires
        tiers_sound(t, q),
    ensures
        space_frame(t, with_space(t, q, from_ghost), q, from_ghost),
{
    law_space_is_made(t, q, from_ghost);
    let s = with_space(t, q, from_ghost);
    if t.recent.len() + t.frequent.len() < q.size {
    } else if demotes(t, q, from_ghost) {
        let last = t.recent.len() - 1;
        assert(t.recent.remove(last) =~= t.recent.drop_last());
        lemma_removal_frame(t.recent, last);
        lemma_put_frame(t.ghosts, q.ghost_size, t.recent.last().0, t.recent.last().1);
    } else if t.frequent.len() > 0 {
        let last = t.frequent.len() - 1;
        assert(t.frequent.remove(last) =~= t.frequent.drop_last());
        lemma_removal_frame(t.frequent, last);
    }
}

/// A tier without `k` keeps what `removal_frame` says.
pub proof fn lemma_without_frame<K, V>(s: Seq<(K, V)>, k: K)
    requires
        distinct_keys(s),
    ensures
        removal_frame(s, without_key(s, k), k),
{
    lemma_without_key_keys(s, k);
    if has_key(s, k) {
        let p = key_index(s, k);
        lemma_removal_frame(s, p);
    }
}

/// A put keeps what `tiers_put_frame` says.
pub proof fn lemma_tiers_put_frame<K, V>(t: Tiers<K, V>, q: Quotas, k: K, v: V)
    requires
        tiers_sound(t, q),
    ensures
        tiers_put_frame(t, tiers_after_put(t, q, k, v), q, k, v),
{
    if has_key(t.frequent, k) {
        law_put_keeps_capacity(t.frequent, q.size, k, v);
        lemma_put_frame(t.frequent, q.size, k, v);
    } else if has_key(t.recent, k) {
        lemma_without_frame(t.recent, k);
        law_put_keeps_capacity(t.frequent, q.size, k, v);
        lemma_put_frame(t.frequent, q.size, k, v);
    } else if has_key(t.ghosts, k) {
        law_space_is_made(t, q, true);
        lemma_space_frame(t, q, true);
        let s = with_space(t, q, true);
        law_put_keeps_capacity(s.frequent, q.size, k, v);
        lemma_put_frame(s.frequent, q.size, k, v);
        lemma_without_frame(s.ghosts, k);
    } else {
        law_space_is_made(t, q, false);
        lemma_space_frame(t, q, false);
        let s = with_space(t, q, false);
        law_put_keeps_capacity(s.recent, q.size, k, v);
        lemma_put_frame(s.recent, q.size, k, v);
    }
}

/// A read keeps what `tiers_get_frame` says.
pub proof fn lemma_tiers_get_frame<K, V>(t: Tiers<K, V>, q: Quotas, k: K)
    requires
        tiers_sound(t, q),
    ensures
        tiers_get_frame(t, tiers_after_get(t, q, k), q, k),
{
    if has_key(t.frequent, k) {
        law_get_keeps_budget(t, q, k);
        lemma_get_frame(t.frequent, k);
    } else if has_key(t.recent, k) {
        let e = t.recent[key_index(t.recent, k)];
        lemma_without_frame(t.recent, k);
        law_put_keeps_capacity(t.frequent, q.size, e.0, e.1);
        lemma_put_frame(t.frequent, q.size, e.0, e.1);
    }
}

/// A removal keeps what `tiers_remove_frame` says.
pub proof fn lemma_tiers_remove_frame<K, V>(t: Tiers<K, V>, q: Quotas, k: K)
    requires
        tiers_sound(t, q),
    ensures
        tiers_remove_frame(t, tiers_after_remove(t, k), k),
{
    lemma_without_frame(t.frequent, k);
    lemma_without_frame(t.recent, k);
    lemma_without_frame(t.ghosts, k);
}

/// The entry that a single-tier put reports as evicted, if it does.
pub open spec fn evicted_by<K, V>(r: PutResult<K, V>) -> Option<(K, V)> {
    match r {
        PutResult::Evicted { key, value } => Some((key, value)),
        PutResult::EvictedAndUpdate { evicted, update } => Some(evicted),
        _ => None,
    }
}

/// `t` with the value of the entry at position `i` of `frequent`, whose key
/// is `k`, replaced by `w`.
pub open spec fn with_frequent_value<K, V>(t: Tiers<K, V>, i: int, k: K, w: V) -> Tiers<K, V> {
    Tiers { recent: t.recent, frequent: t.frequent.update(i, (k, w)), ghosts: t.ghosts }
}

/// Whatever value an entry of `frequent` is given, the tiers stay sound.
pub proof fn lemma_any_frequent_value<K, V>(t: Tiers<K, V>, q: Quotas, i: int, k: K)
    requires
        tiers_sound(t, q),
        0 <= i < t.frequent.len(),
        t.frequent[i].0 == k,
    ensures
        forall|w: V|
            {
                let n = #[trigger] with_frequent_value(t, i, k, w);
                tiers_sound(n, q) && value_frame(t.frequent, n.frequent, k)
            },
{
    assert forall|w: V|
        {
            let n = #[trigger] with_frequent_value(t, i, k, w);
            tiers_sound(n, q) && value_frame(t.frequent, n.frequent, k)
        } by {
        lemma_value_frame(t.frequent, i, w);
        let f = t.frequent.update(i, (k, w));
        assert forall|x: K| #[trigger] has_key(f, x) implies has_key(t.frequent, x) by {
            let j = key_index(f, x);
            assert(t.frequent[j].0 == x);
        }
        assert forall|a: int, b: int| 0 <= a < f.len() && 0 <= b < f.len() && a != b implies
            (#[trigger] f[a]).0 != (#[trigger] f[b]).0
        by {
            assert(f[a].0 == t.frequent[a].0);
            assert(f[b].0 == t.frequent[b].0);
        }
    }
}

} // verus!
