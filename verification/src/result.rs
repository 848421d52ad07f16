//! The outcome of a `put`.

use vstd::prelude::*;
use vstd::std_specs::cmp::{PartialEqSpec, PartialEqSpecImpl};

verus! {

/// What a `put` did to the cache.
#[derive(Debug)]
pub enum PutResult<K, V> {
    /// The key was new and there was room for it.
    Put,
    /// The key was present; its value was replaced, and this is the old one.
    Update(V),
    /// The key was new and the cache was full: this other entry made room.
    Evicted { key: K, value: V },
    /// A layered cache moved the key into its frequent tier, replacing the
    /// value it had (`update`), and the move pushed `evicted` out.
    EvictedAndUpdate { evicted: (K, V), update: V },
}

impl<K: PartialEq, V: PartialEq> PartialEq for PutResult<K, V> {
    fn eq(&self, other: &Self) -> (r: bool) {
        match (self, other) {
            (PutResult::Put, PutResult::Put) => true,
            (PutResult::Update(a), PutResult::Update(b)) => *a == *b,
            (PutResult::Evicted { key: k1, value: v1 }, PutResult::Evicted { key: k2, value: v2 }) => {
                *k1 == *k2 && *v1 == *v2
            },
            (
                PutResult::EvictedAndUpdate { evicted: e1, update: u1 },
                PutResult::EvictedAndUpdate { evicted: e2, update: u2 },
            ) => e1.0 == e2.0 && e1.1 == e2.1 && *u1 == *u2,
            _ => false,
        }
    }
}

impl<K: PartialEq, V: PartialEq> PartialEqSpecImpl for PutResult<K, V> {
    open spec fn obeys_eq_spec() -> bool {
        K::obeys_eq_spec() && V::obeys_eq_spec()
    }

    open spec fn eq_spec(&self, other: &Self) -> bool {
        match (*self, *other) {
            (PutResult::Put, PutResult::Put) => true,
            (PutResult::Update(a), PutResult::Update(b)) => a.eq_spec(&b),
            (PutResult::Evicted { key: k1, value: v1 }, PutResult::Evicted { key: k2, value: v2 }) => {
                k1.eq_spec(&k2) && v1.eq_spec(&v2)
            },
            (
                PutResult::EvictedAndUpdate { evicted: e1, update: u1 },
                PutResult::EvictedAndUpdate { evicted: e2, update: u2 },
            ) => e1.0.eq_spec(&e2.0) && e1.1.eq_spec(&e2.1) && u1.eq_spec(&u2),
            _ => false,
        }
    }
}

impl<K: Eq, V: Eq> Eq for PutResult<K, V> {
}

/// `copy` is a faithful copy of `source`: the same variant, each field a
/// clone of the field it stands for.
pub open spec fn is_clone_of<K: Clone, V: Clone>(source: PutResult<K, V>, copy: PutResult<K, V>) -> bool {
    match (source, copy) {
        (PutResult::Put, PutResult::Put) => true,
        (PutResult::Update(a), PutResult::Update(b)) => cloned(a, b),
        (PutResult::Evicted { key: k1, value: v1 }, PutResult::Evicted { key: k2, value: v2 }) => {
            cloned(k1, k2) && cloned(v1, v2)
        },
        (
            PutResult::EvictedAndUpdate { evicted: e1, update: u1 },
            PutResult::EvictedAndUpdate { evicted: e2, update: u2 },
        ) => cloned(e1.0, e2.0) && cloned(e1.1, e2.1) && cloned(u1, u2),
        _ => false,
    }
}

impl<K: Clone, V: Clone> Clone for PutResult<K, V> {
    fn clone(&self) -> (r: Self)
        ensures
            is_clone_of(*self, r),
    {
        match self {
            PutResult::Put => PutResult::Put,
            PutResult::Update(v) => PutResult::Update(v.clone()),
            PutResult::Evicted { key, value } => {
                PutResult::Evicted { key: key.clone(), value: value.clone() }
            },
            PutResult::EvictedAndUpdate { evicted, update } => PutResult::EvictedAndUpdate {
                evicted: (evicted.0.clone(), evicted.1.clone()),
                update: update.clone(),
            },
        }
    }
}

impl<K: Copy, V: Copy> Copy for PutResult<K, V> {
}

} // verus!
