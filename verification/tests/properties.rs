use layered_lru::{CacheError, OnEvictCallback, PutResult, RawLRU, TwoQueueCache};
use std::collections::hash_map::RandomState;
use std::sync::atomic::{AtomicUsize, Ordering};
use std::sync::Arc;

struct EvictedCounter {
    ctr: Arc<AtomicUsize>,
}

impl OnEvictCallback for EvictedCounter {
    fn on_evict<K, V>(&self, _: &K, _: &V) {
        self.ctr.fetch_add(1, Ordering::SeqCst);
    }
}

fn counted(cap: usize) -> (RawLRU<u64, u64, EvictedCounter>, Arc<AtomicUsize>) {
    let ctr = Arc::new(AtomicUsize::new(0));
    let cache = RawLRU::with_on_evict_cb(cap, EvictedCounter { ctr: ctr.clone() }).unwrap();
    (cache, ctr)
}

fn entries<K: Clone, V: Clone>(cache: &RawLRU<K, V>) -> Vec<(K, V)>
where
    K: std::hash::Hash + Eq,
{
    let mut out = Vec::new();
    let mut it = cache.iter();
    while let Some((k, v)) = it.next() {
        out.push((k.clone(), v.clone()));
    }
    out
}

#[test]
fn capacity_is_never_exceeded() {
    for cap in 1..6usize {
        let mut cache = RawLRU::new(cap).unwrap();
        for i in 0..50u64 {
            cache.put((i * 7) % 11, i);
            assert!(cache.len() <= cap);
            assert_eq!(cache.cap(), cap);
        }
    }
}

#[test]
fn update_does_not_grow() {
    let mut cache = RawLRU::new(3).unwrap();
    cache.put(1, "a");
    cache.put(2, "b");
    cache.put(3, "c");
    assert_eq!(cache.put(1, "z"), PutResult::Update("a"));
    assert_eq!(cache.len(), 3);
    assert_eq!(cache.get(&1), Some(&"z"));
    // The update made the entry the most recent one and evicted nothing.
    assert_eq!(entries(&cache), vec![(1, "z"), (3, "c"), (2, "b")]);
}

#[test]
fn first_in_is_first_out() {
    for cap in 1..8u64 {
        let mut cache = RawLRU::new(cap as usize).unwrap();
        for i in 0..cap {
            assert_eq!(cache.put(i + 100, i), PutResult::Put);
        }
        assert_eq!(cache.put(cap + 100, cap), PutResult::Evicted { key: 100, value: 0 });
        assert!(!cache.contains(&100));
        assert_eq!(cache.len() as u64, cap);
    }
}

#[test]
fn read_promotes() {
    let mut cache = RawLRU::new(3).unwrap();
    cache.put("a", 1);
    cache.put("b", 2);
    cache.put("c", 3);
    assert_eq!(cache.get(&"a"), Some(&1));
    assert_eq!(cache.iter().next(), Some((&"a", &1)));
    assert_eq!(entries(&cache), vec![("a", 1), ("c", 3), ("b", 2)]);
    // A miss changes nothing.
    assert_eq!(cache.get(&"x"), None);
    assert_eq!(entries(&cache), vec![("a", 1), ("c", 3), ("b", 2)]);
}

#[test]
fn peeks_do_not_promote() {
    let mut cache = RawLRU::new(3).unwrap();
    cache.put("a", 1);
    cache.put("b", 2);
    assert_eq!(cache.peek(&"a"), Some(&1));
    assert!(cache.contains(&"a"));
    assert_eq!(cache.peek_lru(), Some((&"a", &1)));
    *cache.peek_mut(&"a").unwrap() = 10;
    assert_eq!(entries(&cache), vec![("b", 2), ("a", 10)]);
    {
        let (k, v) = cache.peek_lru_mut().unwrap();
        assert_eq!(*k, "a");
        *v = 11;
    }
    assert_eq!(entries(&cache), vec![("b", 2), ("a", 11)]);
}

#[test]
fn get_lru_promotes() {
    let mut cache = RawLRU::new(3).unwrap();
    assert_eq!(cache.get_lru(), None);
    assert!(cache.get_lru_mut().is_none());
    cache.put("a", 1);
    cache.put("b", 2);
    cache.put("c", 3);
    assert_eq!(cache.get_lru(), Some((&"a", &1)));
    assert_eq!(entries(&cache), vec![("a", 1), ("c", 3), ("b", 2)]);
    {
        let (k, v) = cache.get_lru_mut().unwrap();
        assert_eq!(*k, "b");
        *v = 20;
    }
    assert_eq!(entries(&cache), vec![("b", 20), ("a", 1), ("c", 3)]);
    *cache.get_mut(&"c").unwrap() = 30;
    assert_eq!(entries(&cache), vec![("c", 30), ("b", 20), ("a", 1)]);
    assert!(cache.get_mut(&"x").is_none());
}

#[test]
fn resize_evicts_the_oldest() {
    let (mut cache, ctr) = counted(5);
    for i in 0..5u64 {
        cache.put(i, i * 10);
    }
    cache.get(&0);
    // Recency is now 0, 4, 3, 2, 1.
    assert_eq!(cache.resize(5), 0);
    assert_eq!(ctr.load(Ordering::SeqCst), 0);
    assert_eq!(cache.resize(2), 3);
    assert_eq!(ctr.load(Ordering::SeqCst), 3);
    assert_eq!(cache.cap(), 2);
    assert_eq!(cache.len(), 2);
    assert_eq!(cache.remove_lru(), Some((4, 40)));
    assert_eq!(cache.remove_lru(), Some((0, 0)));
    assert_eq!(cache.remove_lru(), None);
    assert_eq!(cache.resize(7), 0);
    assert_eq!(cache.cap(), 7);
}

#[test]
fn resize_to_zero_empties() {
    let (mut cache, ctr) = counted(3);
    cache.put(1, 1);
    cache.put(2, 2);
    assert_eq!(cache.resize(0), 2);
    assert_eq!(cache.len(), 0);
    assert_eq!(cache.cap(), 0);
    assert!(cache.is_empty());
    assert_eq!(ctr.load(Ordering::SeqCst), 2);
}

#[test]
fn purge_reports_every_entry_once() {
    let (mut cache, ctr) = counted(4);
    for i in 0..4u64 {
        cache.put(i, i);
    }
    cache.purge();
    assert_eq!(cache.len(), 0);
    assert_eq!(ctr.load(Ordering::SeqCst), 4);
    cache.purge();
    assert_eq!(ctr.load(Ordering::SeqCst), 4);
    assert_eq!(cache.put(9, 9), PutResult::Put);
}

#[test]
fn every_departure_is_reported() {
    let (mut cache, ctr) = counted(1);
    cache.put(1, 1);
    cache.put(2, 2);
    cache.put(3, 3);
    assert_eq!(ctr.load(Ordering::SeqCst), 2);
    // An update is no departure.
    cache.put(3, 4);
    assert_eq!(ctr.load(Ordering::SeqCst), 2);
    assert_eq!(cache.remove(&3), Some(4));
    assert_eq!(ctr.load(Ordering::SeqCst), 3);
    assert_eq!(cache.remove(&3), None);
    assert_eq!(ctr.load(Ordering::SeqCst), 3);
    cache.put(5, 5);
    assert_eq!(cache.remove_lru(), Some((5, 5)));
    assert_eq!(ctr.load(Ordering::SeqCst), 4);
    assert_eq!(cache.remove_lru(), None);
    assert_eq!(ctr.load(Ordering::SeqCst), 4);
}

#[test]
fn handing_over_is_not_reported() {
    let (mut cache, ctr) = counted(3);
    cache.put(1, 10);
    cache.put(2, 20);
    cache.put(3, 30);
    assert_eq!(cache.remove_and_return_ent(&2), Some((2, 20)));
    assert_eq!(cache.remove_and_return_ent(&2), None);
    assert_eq!(cache.remove_lru_in(), Some((1, 10)));
    assert_eq!(cache.remove_lru_in(), Some((3, 30)));
    assert_eq!(cache.remove_lru_in(), None);
    assert_eq!(ctr.load(Ordering::SeqCst), 0);
    assert!(cache.is_empty());
}

#[test]
fn walks_run_both_ways() {
    let mut cache = RawLRU::new(3).unwrap();
    cache.put("a", 1);
    cache.put("b", 2);
    cache.put("c", 3);

    let mut it = cache.reversed_iter();
    assert_eq!(it.len(), 3);
    assert_eq!(it.next(), Some((&"a", &1)));
    assert_eq!(it.next_back(), Some((&"c", &3)));
    assert_eq!(it.next(), Some((&"b", &2)));
    assert_eq!(it.next(), None);
    assert_eq!(it.next_back(), None);

    let mut keys = cache.keys();
    assert_eq!(keys.len(), 3);
    assert_eq!(keys.next(), Some(&"c"));
    assert_eq!(keys.next_back(), Some(&"a"));
    assert_eq!(keys.len(), 1);
    assert_eq!(keys.next(), Some(&"b"));
    assert_eq!(keys.next(), None);

    let mut keys = cache.reversed_keys();
    assert_eq!(keys.next(), Some(&"a"));
    assert_eq!(keys.next(), Some(&"b"));
    assert_eq!(keys.next(), Some(&"c"));
    assert_eq!(keys.next_back(), None);

    {
        let mut it = cache.reverse_iter_mut();
        assert_eq!(it.len(), 3);
        {
            let (k, v) = it.next().unwrap();
            assert_eq!(*k, "a");
            *v = 10;
        }
        {
            let (k, v) = it.next_back().unwrap();
            assert_eq!(*k, "c");
            *v = 30;
        }
        assert_eq!(it.len(), 1);
    }
    assert_eq!(entries(&cache), vec![("c", 30), ("b", 2), ("a", 10)]);

    let empty = RawLRU::<u64, u64>::new(1).unwrap();
    assert_eq!(empty.iter().len(), 0);
    assert_eq!(empty.iter().next(), None);
    assert_eq!(empty.reversed_iter().next_back(), None);
}

#[test]
fn slots_are_reused() {
    let mut cache = RawLRU::new(3).unwrap();
    for round in 0..20u64 {
        cache.put(round, round);
        cache.put(round + 100, round);
        assert_eq!(cache.remove(&round), Some(round));
        assert!(cache.len() <= 3);
    }
    assert_eq!(entries(&cache), vec![(119, 19), (118, 18)]);
}

#[test]
fn zero_capacity_is_refused_by_every_constructor() {
    assert_eq!(RawLRU::<u64, u64>::new(0).err(), Some(CacheError::InvalidSize(0)));
    assert_eq!(
        RawLRU::<u64, u64, _, _>::with_hasher(0, RandomState::new()).err(),
        Some(CacheError::InvalidSize(0))
    );
    let ctr = Arc::new(AtomicUsize::new(0));
    assert_eq!(
        RawLRU::<u64, u64, _>::with_on_evict_cb(0, EvictedCounter { ctr: ctr.clone() }).err(),
        Some(CacheError::InvalidSize(0))
    );
    assert_eq!(
        RawLRU::<u64, u64, _, _>::with_hasher_and_on_evict_cb(
            0,
            EvictedCounter { ctr: ctr.clone() },
            RandomState::new()
        )
        .err(),
        Some(CacheError::InvalidSize(0))
    );
    let mut cache =
        RawLRU::with_hasher_and_on_evict_cb(1, EvictedCounter { ctr: ctr.clone() }, RandomState::new()).unwrap();
    cache.put(1, 1);
    cache.put(2, 2);
    assert_eq!(ctr.load(Ordering::SeqCst), 1);
}

#[test]
fn errors_render_in_words() {
    assert_eq!(CacheError::InvalidSize(0).message(), "invalid cache size 0");
    assert_eq!(CacheError::InvalidSize(7).message(), "invalid cache size 7");
    assert_eq!(CacheError::InvalidSize(10).message(), "invalid cache size 10");
    assert_eq!(CacheError::InvalidSize(1234567890).message(), "invalid cache size 1234567890");
    assert_eq!(
        CacheError::InvalidSize(usize::MAX).message(),
        format!("invalid cache size {}", usize::MAX)
    );
}

#[test]
fn put_results_compare_and_clone() {
    let all: Vec<PutResult<u64, &str>> = vec![
        PutResult::Put,
        PutResult::Update("a"),
        PutResult::Evicted { key: 1, value: "a" },
        PutResult::EvictedAndUpdate { evicted: (1, "a"), update: "b" },
    ];
    for (i, a) in all.iter().enumerate() {
        for (j, b) in all.iter().enumerate() {
            assert_eq!(a == b, i == j);
        }
        assert_eq!(a.clone(), *a);
    }
    assert_ne!(PutResult::<u64, &str>::Update("a"), PutResult::Update("b"));
    assert_ne!(PutResult::Evicted { key: 1, value: "a" }, PutResult::Evicted { key: 2, value: "a" });
    assert_ne!(PutResult::Evicted { key: 1, value: "a" }, PutResult::Evicted { key: 1, value: "b" });
    assert_ne!(
        PutResult::EvictedAndUpdate { evicted: (1, "a"), update: "b" },
        PutResult::EvictedAndUpdate { evicted: (1, "a"), update: "c" }
    );
    assert_ne!(
        PutResult::EvictedAndUpdate { evicted: (1, "a"), update: "b" },
        PutResult::EvictedAndUpdate { evicted: (2, "a"), update: "b" }
    );
}

#[test]
fn layered_put_reports_what_it_did() {
    // Budget 2, no quota for recent, ghost tier of 3.
    let mut cache = TwoQueueCache::with_sizes(2, 0, 3).unwrap();
    assert_eq!(cache.size(), 2);
    assert_eq!(cache.put(1, "a"), PutResult::Put);
    assert_eq!(cache.put(2, "b"), PutResult::Put);
    // A promotion from recent replaces the value and reports the old one.
    assert_eq!(cache.put(1, "A"), PutResult::Update("a"));
    assert_eq!(cache.put(1, "AA"), PutResult::Update("A"));
    assert_eq!(cache.frequent().len(), 1);
    assert_eq!(cache.recent().len(), 1);
    // A new key demotes the only recent entry: nothing leaves for good.
    assert_eq!(cache.put(3, "c"), PutResult::Put);
    assert!(cache.ghosts().contains(&2));
    assert_eq!(cache.put(4, "d"), PutResult::Put);
    assert!(cache.ghosts().contains(&3));
    assert_eq!(cache.get(&3), None);
    // A remembered key is promoted with its new value; recent, over its
    // quota, gives way once more.
    assert_eq!(cache.put(2, "B"), PutResult::Update("b"));
    assert!(cache.ghosts().contains(&4));
    assert_eq!(cache.recent().len(), 0);
    assert_eq!(cache.frequent().len(), 2);
    // Now frequent has to give way: its oldest entry leaves for good.
    assert_eq!(cache.put(5, "e"), PutResult::Evicted { key: 1, value: "AA" });
    assert_eq!(cache.recent().len() + cache.frequent().len(), 2);
    assert_eq!(cache.put(6, "f"), PutResult::Put);
    assert!(cache.ghosts().contains(&5));
    assert_eq!(cache.get(&6), Some(&"f"));
    assert_eq!(cache.frequent().len(), 2);
    // Promotion of a remembered key at the cost of a frequent entry.
    assert_eq!(cache.put(5, "E"), PutResult::EvictedAndUpdate { evicted: (2, "B"), update: "e" });
    assert_eq!(cache.get(&5), Some(&"E"));
    assert_eq!(cache.recent().len() + cache.frequent().len(), 2);
}

#[test]
fn a_remembered_key_pushed_out_by_the_demotion_is_new() {
    let mut cache = TwoQueueCache::with_sizes(4, 1, 2).unwrap();
    for i in 1..=6 {
        cache.put(i, i);
    }
    // Recent holds 6, 5, 4, 3; the ghost tier remembers 2, 1 and is full.
    assert!(cache.ghosts().contains(&1));
    assert!(cache.ghosts().contains(&2));
    // Making room for 1 demotes 3, which pushes 1 out of the ghost tier.
    assert_eq!(cache.put(1, 100), PutResult::Put);
    assert_eq!(cache.frequent().peek(&1), Some(&100));
    assert!(cache.ghosts().contains(&3));
    assert!(cache.ghosts().contains(&2));
    assert!(!cache.ghosts().contains(&1));
    assert_eq!(cache.recent().len(), 3);
}

#[test]
fn layered_reads_and_removals() {
    let mut cache = TwoQueueCache::with_sizes(3, 1, 3).unwrap();
    cache.put("a", 1);
    cache.put("b", 2);
    // A read of a recent entry promotes it.
    assert_eq!(cache.get(&"a"), Some(&1));
    assert!(cache.frequent().contains(&"a"));
    assert!(!cache.recent().contains(&"a"));
    // A mutable read does the same and lends the value.
    *cache.get_mut(&"b").unwrap() = 20;
    assert!(cache.frequent().contains(&"b"));
    *cache.get_mut(&"b").unwrap() += 1;
    assert_eq!(cache.get(&"b"), Some(&21));
    assert!(cache.get_mut(&"x").is_none());
    // Removal takes from frequent, recent or the ghost tier.
    cache.put("c", 3);
    cache.put("d", 4);
    assert!(cache.ghosts().contains(&"c"));
    assert_eq!(cache.get(&"c"), None);
    assert!(cache.get_mut(&"c").is_none());
    assert_eq!(cache.remove(&"c"), Some(3));
    assert_eq!(cache.remove(&"d"), Some(4));
    assert_eq!(cache.remove(&"a"), Some(1));
    assert_eq!(cache.remove(&"a"), None);
    assert_eq!(cache.recent().len() + cache.frequent().len(), 1);
}

#[test]
fn layered_budget_holds_for_small_sizes() {
    for size in 2..7usize {
        let mut cache = TwoQueueCache::new(size).unwrap();
        let mut x: u64 = 12345;
        for _ in 0..5000 {
            x = x.wrapping_mul(6364136223846793005).wrapping_add(1442695040888963407);
            let k = (x >> 33) % 13;
            match (x >> 20) % 4 {
                0 | 1 => {
                    cache.put(k, k);
                }
                2 => {
                    cache.get(&k);
                }
                _ => {
                    cache.remove(&k);
                }
            }
            assert!(cache.recent().len() + cache.frequent().len() <= size);
            assert!(cache.ghosts().len() <= size / 2);
        }
    }
}

#[test]
fn with_a_full_quota_the_budget_can_be_exceeded() {
    // The quota of recent equals the budget: a remembered key finds neither
    // tier willing to give way.
    let mut cache = TwoQueueCache::with_sizes(2, 2, 1).unwrap();
    cache.put(1, 1);
    cache.put(2, 2);
    cache.put(3, 3);
    assert!(cache.ghosts().contains(&1));
    cache.put(1, 1);
    assert_eq!(cache.recent().len(), 2);
    assert_eq!(cache.frequent().len(), 1);
}
