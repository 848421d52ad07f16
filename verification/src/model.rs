//! The mathematical model of a cache: its entries as a sequence of key-value
//! pairs, the most recently used first, the least recently used last.

use crate::result::PutResult;
use vstd::prelude::*;

verus! {

/// Some entry of `s` has key `k`.
pub open spec fn has_key<K, V>(s: Seq<(K, V)>, k: K) -> bool {
    exists|i: int| 0 <= i < s.len() && (#[trigger] s[i]).0 == k
}

/// The position of an entry with key `k`; meaningful where `has_key(s, k)`.
pub open spec fn key_index<K, V>(s: Seq<(K, V)>, k: K) -> int {
    choose|i: int| 0 <= i < s.len() && (#[trigger] s[i]).0 == k
}

/// No two entries of `s` share a key.
pub open spec fn distinct_keys<K, V>(s: Seq<(K, V)>) -> bool {
    forall|i: int, j: int|
        0 <= i < s.len() && 0 <= j < s.len() && i != j ==> (#[trigger] s[i]).0 != (#[trigger] s[j]).0
}

/// The value stored under `k`, if any.
pub open spec fn value_of<K, V>(s: Seq<(K, V)>, k: K) -> Option<V> {
    if has_key(s, k) {
        Some(s[key_index(s, k)].1)
    } else {
        None
    }
}

/// `s` after the entry at position `i` became the most recently used.
pub open spec fn touched<K, V>(s: Seq<(K, V)>, i: int) -> Seq<(K, V)> {
    seq![s[i]] + s.remove(i)
}

/// `s` after a read of `k`: its entry, if there is one, moves to the front.
pub open spec fn after_get<K, V>(s: Seq<(K, V)>, k: K) -> Seq<(K, V)> {
    if has_key(s, k) {
        touched(s, key_index(s, k))
    } else {
        s
    }
}

/// `s` without the entry of `k`.
pub open spec fn without_key<K, V>(s: Seq<(K, V)>, k: K) -> Seq<(K, V)> {
    if has_key(s, k) {
        s.remove(key_index(s, k))
    } else {
        s
    }
}

/// `s` after `(k, v)` was put into a cache that holds at most `cap` entries.
pub open spec fn after_put<K, V>(s: Seq<(K, V)>, cap: nat, k: K, v: V) -> Seq<(K, V)> {
    if has_key(s, k) {
        seq![(k, v)] + s.remove(key_index(s, k))
    } else if s.len() >= cap && s.len() > 0 {
        seq![(k, v)] + s.drop_last()
    } else {
        seq![(k, v)] + s
    }
}

/// The entry that a put of `k` pushes out: the least recently used one, when
/// `k` is new and the cache is full.
pub open spec fn put_evicts<K, V>(s: Seq<(K, V)>, cap: nat, k: K) -> Option<(K, V)> {
    if !has_key(s, k) && s.len() >= cap && s.len() > 0 {
        Some(s.last())
    } else {
        None
    }
}

/// What a put of `k` reports.
pub open spec fn put_outcome<K, V>(s: Seq<(K, V)>, cap: nat, k: K) -> PutResult<K, V> {
    if has_key(s, k) {
        PutResult::Update(s[key_index(s, k)].1)
    } else if s.len() >= cap && s.len() > 0 {
        PutResult::Evicted { key: s.last().0, value: s.last().1 }
    } else {
        PutResult::Put
    }
}

/// `log` extended by `e`, if there is one.
pub open spec fn log_with<K, V>(log: Seq<(K, V)>, e: Option<(K, V)>) -> Seq<(K, V)> {
    match e {
        Some(pair) => log.push(pair),
        None => log,
    }
}

/// The entry with key `k`, if any.
pub open spec fn entry_of<K, V>(s: Seq<(K, V)>, k: K) -> Option<(K, V)> {
    if has_key(s, k) {
        Some(s[key_index(s, k)])
    } else {
        None
    }
}

/// The `n` least recently used entries of `s`, the least recent first: the
/// order in which a cache gives them up.
pub open spec fn lru_first<K, V>(s: Seq<(K, V)>, n: nat) -> Seq<(K, V)>
    recommends
        n <= s.len(),
{
    Seq::new(n, |i: int| s[s.len() - 1 - i])
}

/// In a sequence with distinct keys a key sits at one position only.
pub proof fn lemma_key_index_unique<K, V>(s: Seq<(K, V)>, k: K, i: int)
    requires
        distinct_keys(s),
        0 <= i < s.len(),
        s[i].0 == k,
    ensures
        has_key(s, k),
        key_index(s, k) == i,
{
    let j = key_index(s, k);
    assert(0 <= j < s.len() && s[j].0 == k);
    if i != j {
        assert(s[i].0 != s[j].0);
    }
}

/// A key of `s` without one of its entries is a key of `s`.
pub proof fn lemma_remove_keeps_absent<K, V>(s: Seq<(K, V)>, p: int, k: K)
    requires
        0 <= p < s.len(),
        !has_key(s, k),
    ensures
        !has_key(s.remove(p), k),
{
    if has_key(s.remove(p), k) {
        let i = key_index(s.remove(p), k);
        let a = if i < p { i } else { i + 1 };
        assert(s[a].0 == k);
    }
}

/// By how many entries a cache of `len` entries exceeds the capacity `cap`.
pub open spec fn excess(len: nat, cap: nat) -> nat {
    if len > cap {
        (len - cap) as nat
    } else {
        0
    }
}

/// Giving up one more entry extends the list of those given up by the next
/// least recently used one.
pub proof fn lemma_lru_first_step<K, V>(s: Seq<(K, V)>, n: nat)
    requires
        n < s.len(),
    ensures
        lru_first(s, n + 1) == lru_first(s, n).push(s.subrange(0, s.len() - n).last()),
        s.subrange(0, s.len() - n).drop_last() == s.subrange(0, s.len() - n - 1),
{
    assert(lru_first(s, n + 1) =~= lru_first(s, n).push(s.subrange(0, s.len() - n).last()));
    assert(s.subrange(0, s.len() - n).drop_last() =~= s.subrange(0, s.len() - n - 1));
}

/// The keys of a cache after a put: the key that was put, and keys it had.
pub proof fn lemma_after_put_keys<K, V>(s: Seq<(K, V)>, cap: nat, k: K, v: V)
    ensures
        has_key(after_put(s, cap, k, v), k),
        forall|q: K| #[trigger] has_key(after_put(s, cap, k, v), q) ==> q == k || has_key(s, q),
        !has_key(s, k) && s.len() < cap ==> forall|q: K|
            has_key(s, q) ==> #[trigger] has_key(after_put(s, cap, k, v), q),
{
    let t = after_put(s, cap, k, v);
    assert(t[0].0 == k);
    assert forall|q: K| #[trigger] has_key(t, q) implies q == k || has_key(s, q) by {
        let i = key_index(t, q);
        if i > 0 {
            if has_key(s, k) {
                let p = key_index(s, k);
                let a = if i - 1 < p { i - 1 } else { i };
                assert(s[a].0 == q);
            } else {
                assert(s[i - 1].0 == q);
            }
        }
    }
    if !has_key(s, k) && s.len() < cap {
        assert forall|q: K| has_key(s, q) implies #[trigger] has_key(t, q) by {
            let i = key_index(s, q);
            assert(t[i + 1].0 == q);
        }
    }
}

/// After a put, the key is at the front with the value that was put.
pub proof fn lemma_after_put_front<K, V>(s: Seq<(K, V)>, cap: nat, k: K, v: V)
    requires
        distinct_keys(after_put(s, cap, k, v)),
    ensures
        after_put(s, cap, k, v).len() > 0,
        after_put(s, cap, k, v)[0] == (k, v),
        has_key(after_put(s, cap, k, v), k),
        key_index(after_put(s, cap, k, v), k) == 0,
        value_of(after_put(s, cap, k, v), k) == Some(v),
{
    let t = after_put(s, cap, k, v);
    assert(t[0] == (k, v));
    lemma_key_index_unique(t, k, 0);
}

/// The keys of a cache without `k`: the keys it had, but `k`.
pub proof fn lemma_without_key_keys<K, V>(s: Seq<(K, V)>, k: K)
    requires
        distinct_keys(s),
    ensures
        !has_key(without_key(s, k), k),
        forall|q: K| #[trigger] has_key(without_key(s, k), q) ==> has_key(s, q),
        forall|q: K| has_key(s, q) && q != k ==> #[trigger] has_key(without_key(s, k), q),
        has_key(s, k) ==> without_key(s, k).len() == s.len() - 1,
        distinct_keys(without_key(s, k)),
{
    let t = without_key(s, k);
    if has_key(s, k) {
        let p = key_index(s, k);
        assert forall|q: K| #[trigger] has_key(t, q) implies has_key(s, q) && q != k by {
            let i = key_index(t, q);
            let a = if i < p { i } else { i + 1 };
            assert(s[a].0 == q);
        }
        assert forall|q: K| has_key(s, q) && q != k implies #[trigger] has_key(t, q) by {
            let a = key_index(s, q);
            let i = if a < p { a } else { a - 1 };
            assert(t[i].0 == q);
        }
        assert forall|i: int, j: int| 0 <= i < t.len() && 0 <= j < t.len() && i != j implies
            (#[trigger] t[i]).0 != (#[trigger] t[j]).0
        by {
            let a = if i < p { i } else { i + 1 };
            let b = if j < p { j } else { j + 1 };
            assert(t[i] == s[a]);
            assert(t[j] == s[b]);
        }
    } else {
        assert forall|q: K| has_key(s, q) && q != k implies #[trigger] has_key(t, q) by {}
    }
}

/// The keys of a cache without its least recently used entry.
pub proof fn lemma_drop_last_keys<K, V>(s: Seq<(K, V)>)
    requires
        distinct_keys(s),
        s.len() > 0,
    ensures
        !has_key(s.drop_last(), s.last().0),
        forall|q: K| #[trigger] has_key(s.drop_last(), q) ==> has_key(s, q),
        distinct_keys(s.drop_last()),
{
    let t = s.drop_last();
    assert forall|q: K| #[trigger] has_key(t, q) implies has_key(s, q) && q != s.last().0 by {
        let i = key_index(t, q);
        assert(s[i].0 == q);
    }
    assert forall|i: int, j: int| 0 <= i < t.len() && 0 <= j < t.len() && i != j implies
            (#[trigger] t[i]).0 != (#[trigger] t[j]).0
        by {
        assert(t[i] == s[i]);
        assert(t[j] == s[j]);
    }
}

/// A read reorders a cache and keeps its keys.
pub proof fn lemma_after_get_keys<K, V>(s: Seq<(K, V)>, k: K)
    ensures
        after_get(s, k).len() == s.len(),
        forall|q: K| #[trigger] has_key(after_get(s, k), q) <==> has_key(s, q),
{
    let t = after_get(s, k);
    if has_key(s, k) {
        let p = key_index(s, k);
        assert forall|q: K| #[trigger] has_key(t, q) <==> has_key(s, q) by {
            if has_key(t, q) {
                let i = key_index(t, q);
                let a = if i == 0 { p } else if i - 1 < p { i - 1 } else { i };
                assert(s[a].0 == q);
            }
            if has_key(s, q) {
                let a = key_index(s, q);
                let i = if a == p { 0 } else if a < p { a + 1 } else { a };
                assert(t[i].0 == q);
            }
        }
    }
}

/// The key of an entry, if there is one.
pub open spec fn key_of<K, V>(e: Option<(K, V)>) -> Option<K> {
    match e {
        Some(pair) => Some(pair.0),
        None => None,
    }
}

/// Every key of `old`, but `a` and `b`, is a key of `new` and has the value
/// there that it had in `old`.
pub open spec fn carried_over<K, V>(old: Seq<(K, V)>, new: Seq<(K, V)>, a: Option<K>, b: Option<K>) -> bool {
    forall|q: K| #[trigger]
        has_key(old, q) ==> Some(q) == a || Some(q) == b || (has_key(new, q) && value_of(new, q) == value_of(
            old,
            q,
        ))
}

/// What a put leaves as it was: the key that was put has the value that was
/// put, the entry that made room is gone, and every other key has the value
/// it had.
pub open spec fn put_frame<K, V>(old: Seq<(K, V)>, new: Seq<(K, V)>, cap: nat, k: K, v: V) -> bool {
    &&& has_key(new, k)
    &&& value_of(new, k) == Some(v)
    &&& carried_over(old, new, Some(k), key_of(put_evicts(old, cap, k)))
    &&& put_evicts(old, cap, k) matches Some(e) ==> !has_key(new, e.0)
}

/// What a removal of `k` leaves as it was: `k` is gone, and every other key
/// has the value it had.
pub open spec fn removal_frame<K, V>(old: Seq<(K, V)>, new: Seq<(K, V)>, k: K) -> bool {
    &&& !has_key(new, k)
    &&& carried_over(old, new, Some(k), None)
}

/// What a change of the value of `k` leaves as it was: `k` is still a key,
/// and every other key has the value it had.
pub open spec fn value_frame<K, V>(old: Seq<(K, V)>, new: Seq<(K, V)>, k: K) -> bool {
    &&& has_key(new, k)
    &&& carried_over(old, new, Some(k), None)
}

/// Entries that stand where they stood, or elsewhere in the same cache, are
/// found under their keys.
pub proof fn lemma_found<K, V>(s: Seq<(K, V)>, i: int)
    requires
        distinct_keys(s),
        0 <= i < s.len(),
    ensures
        has_key(s, s[i].0),
        value_of(s, s[i].0) == Some(s[i].1),
{
    lemma_key_index_unique(s, s[i].0, i);
}

/// A put keeps what `put_frame` says.
pub proof fn lemma_put_frame<K, V>(s: Seq<(K, V)>, cap: nat, k: K, v: V)
    requires
        distinct_keys(s),
        distinct_keys(after_put(s, cap, k, v)),
    ensures
        put_frame(s, after_put(s, cap, k, v), cap, k, v),
{
    let t = after_put(s, cap, k, v);
    lemma_after_put_front(s, cap, k, v);
    assert forall|q: K| #[trigger] has_key(s, q) implies Some(q) == Some(k) || Some(q) == key_of(
        put_evicts(s, cap, k),
    ) || (has_key(t, q) && value_of(t, q) == value_of(s, q)) by {
        let i = key_index(s, q);
        lemma_found(s, i);
        if q != k && Some(q) != key_of(put_evicts(s, cap, k)) {
            if has_key(s, k) {
                let p = key_index(s, k);
                let j = if i < p { i + 1 } else { i };
                assert(t[j] == s[i]);
                lemma_found(t, j);
            } else {
                assert(t[i + 1] == s[i]);
                lemma_found(t, i + 1);
            }
        }
    }
    if put_evicts(s, cap, k) is Some {
        let e = s.last();
        if has_key(t, e.0) {
            let j = key_index(t, e.0);
            lemma_found(s, s.len() - 1);
            if j > 0 {
                assert(t[j] == s[j - 1]);
                lemma_found(s, j - 1);
            }
        }
    }
}

/// A read keeps every key and its value.
pub proof fn lemma_get_frame<K, V>(s: Seq<(K, V)>, k: K)
    requires
        distinct_keys(s),
        distinct_keys(after_get(s, k)),
    ensures
        carried_over(s, after_get(s, k), None, None),
{
    let t = after_get(s, k);
    assert forall|q: K| #[trigger] has_key(s, q) implies has_key(t, q) && value_of(t, q) == value_of(s, q) by {
        let i = key_index(s, q);
        lemma_found(s, i);
        if has_key(s, k) {
            let p = key_index(s, k);
            let j = if i == p { 0 } else if i < p { i + 1 } else { i };
            assert(t[j] == s[i]);
            lemma_found(t, j);
        }
    }
}

/// A removal keeps what `removal_frame` says.
pub proof fn lemma_removal_frame<K, V>(s: Seq<(K, V)>, p: int)
    requires
        distinct_keys(s),
        0 <= p < s.len(),
        distinct_keys(s.remove(p)),
    ensures
        removal_frame(s, s.remove(p), s[p].0),
{
    let t = s.remove(p);
    assert forall|q: K| #[trigger] has_key(s, q) implies Some(q) == Some(s[p].0) || (has_key(t, q) && value_of(
        t,
        q,
    ) == value_of(s, q)) by {
        let i = key_index(s, q);
        lemma_found(s, i);
        if i != p {
            let j = if i < p { i } else { i - 1 };
            assert(t[j] == s[i]);
            lemma_found(t, j);
        } else {
            lemma_found(s, p);
        }
    }
    if has_key(t, s[p].0) {
        let j = key_index(t, s[p].0);
        let i = if j < p { j } else { j + 1 };
        assert(t[j] == s[i]);
        lemma_found(s, i);
        lemma_found(s, p);
    }
}

/// A change of a value keeps what `value_frame` says.
pub proof fn lemma_value_frame<K, V>(s: Seq<(K, V)>, p: int, w: V)
    requires
        distinct_keys(s),
        0 <= p < s.len(),
    ensures
        distinct_keys(s.update(p, (s[p].0, w))),
        value_frame(s, s.update(p, (s[p].0, w)), s[p].0),
        value_of(s.update(p, (s[p].0, w)), s[p].0) == Some(w),
{
    let t = s.update(p, (s[p].0, w));
    assert forall|i: int, j: int| 0 <= i < t.len() && 0 <= j < t.len() && i != j implies
        (#[trigger] t[i]).0 != (#[trigger] t[j]).0
    by {
        assert(t[i].0 == s[i].0);
        assert(t[j].0 == s[j].0);
    }
    lemma_found(t, p);
    assert forall|q: K| #[trigger] has_key(s, q) implies Some(q) == Some(s[p].0) || (has_key(t, q) && value_of(
        t,
        q,
    ) == value_of(s, q)) by {
        let i = key_index(s, q);
        lemma_found(s, i);
        lemma_found(s, p);
        if i != p {
            assert(t[i] == s[i]);
            lemma_found(t, i);
        }
    }
}

/// What a shrinking leaves as it was: a key among the `new.len()` most
/// recently used of `old` has the value it had, and any other key is gone.
pub open spec fn prefix_frame<K, V>(old: Seq<(K, V)>, new: Seq<(K, V)>) -> bool {
    forall|q: K| #[trigger]
        has_key(old, q) ==> if key_index(old, q) < new.len() {
            has_key(new, q) && value_of(new, q) == value_of(old, q)
        } else {
            !has_key(new, q)
        }
}

/// The most recently used entries of a cache keep what `prefix_frame` says.
pub proof fn lemma_prefix_frame<K, V>(s: Seq<(K, V)>, n: int)
    requires
        distinct_keys(s),
        0 <= n <= s.len(),
    ensures
        distinct_keys(s.subrange(0, n)),
        prefix_frame(s, s.subrange(0, n)),
{
    let t = s.subrange(0, n);
    assert forall|i: int, j: int| 0 <= i < t.len() && 0 <= j < t.len() && i != j implies
        (#[trigger] t[i]).0 != (#[trigger] t[j]).0
    by {
        assert(t[i] == s[i]);
        assert(t[j] == s[j]);
    }
    assert forall|q: K| #[trigger] has_key(s, q) implies if key_index(s, q) < t.len() {
        has_key(t, q) && value_of(t, q) == value_of(s, q)
    } else {
        !has_key(t, q)
    } by {
        let i = key_index(s, q);
        lemma_found(s, i);
        if i < n {
            assert(t[i] == s[i]);
            lemma_found(t, i);
        } else if has_key(t, q) {
            let j = key_index(t, q);
            assert(t[j] == s[j]);
            lemma_found(s, j);
        }
    }
}

} // verus!
