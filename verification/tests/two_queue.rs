use layered_lru::{CacheError, PutResult, TwoQueueCache};
use rand::seq::SliceRandom;
use rand::{thread_rng, Rng};

#[test]
fn test_2q_cache_random_ops() {
    let size = 128;
    let mut rng = thread_rng();
    let mut cases: Vec<u64> = (0..200_000).collect();
    cases.shuffle(&mut rng);

    let mut cache = TwoQueueCache::new(size).unwrap();

    (0..200_000).for_each(|i| {
        let k = rng.gen::<i64>() % 512;
        let r: i64 = rng.gen();

        match r % 3 {
            0 => {
                let _ = cache.put(k, k);
            }
            1 => {
                let _ = cache.get(&k);
            }
            2 => {
                let _ = cache.remove(&k);
            }
            _ => {}
        }

        assert!(
            cache.recent().len() + cache.frequent().len() <= size,
            "idx: {}, bad: recent: {} freq: {}",
            i,
            cache.recent().len(),
            cache.frequent().len()
        )
    })
}

#[test]
fn test_2q_cache_get_recent_to_freq() {
    let mut cache = TwoQueueCache::new(128).unwrap();

    // Touch all the entries: they land in recent.
    for i in 0..128 {
        cache.put(i, i);
    }
    assert_eq!(cache.recent().len(), 128, "bad {}", cache.recent().len());
    assert_eq!(cache.frequent().len(), 0, "bad {}", cache.frequent().len());

    // One read of each promotes it.
    for i in 0..128 {
        assert_eq!(cache.get(&i), Some(&i), "missing {}", i);
    }
    assert_eq!(cache.recent().len(), 0, "bad {}", cache.recent().len());
    assert_eq!(cache.frequent().len(), 128, "bad {}", cache.frequent().len());

    // Reading again leaves them where they are.
    for i in 0..128 {
        assert_eq!(cache.get(&i), Some(&i), "missing {}", i);
    }
    assert_eq!(cache.recent().len(), 0, "bad {}", cache.recent().len());
    assert_eq!(cache.frequent().len(), 128, "bad {}", cache.frequent().len());
}

#[test]
fn test_2q_cache_put_recent_to_freq() {
    let mut cache = TwoQueueCache::new(128).unwrap();

    // Add initially to recent
    cache.put(1, 1);
    assert_eq!(cache.recent().len(), 1, "bad {}", cache.recent().len());
    assert_eq!(cache.frequent().len(), 0, "bad {}", cache.frequent().len());

    // Add should upgrade to frequent
    cache.put(1, 1);
    assert_eq!(cache.recent().len(), 0, "bad {}", cache.recent().len());
    assert_eq!(cache.frequent().len(), 1, "bad {}", cache.frequent().len());

    // Add should remain in frequent
    cache.put(1, 1);
    assert_eq!(cache.recent().len(), 0, "bad {}", cache.recent().len());
    assert_eq!(cache.frequent().len(), 1, "bad {}", cache.frequent().len());
}

#[test]
fn test_2q_cache_put_recent_evict() {
    let mut cache = TwoQueueCache::with_sizes(4, 1, 2).unwrap();

    // Four keys fit into recent, which borrows what frequent does not use.
    for i in 1..=4 {
        assert_eq!(cache.put(i, i), PutResult::Put);
    }
    assert_eq!(cache.recent().len(), 4);
    assert_eq!(cache.ghosts().len(), 0);

    // A fifth demotes the oldest to the ghost tier.
    assert_eq!(cache.put(5, 5), PutResult::Put);
    assert_eq!(cache.recent().len(), 4);
    assert_eq!(cache.ghosts().len(), 1);
    assert!(cache.ghosts().contains(&1));
    assert_eq!(cache.get(&1), None);

    // A put of the remembered key promotes it to frequent, at the cost of
    // another demotion, and reports the value that was remembered.
    assert_eq!(cache.put(1, 10), PutResult::Update(1));
    assert_eq!(cache.recent().len(), 3);
    assert_eq!(cache.frequent().len(), 1);
    assert_eq!(cache.ghosts().len(), 1);
    assert!(cache.ghosts().contains(&2));
    assert_eq!(cache.get(&1), Some(&10));
}

#[test]
fn test_2q_cache() {
    let mut cache = TwoQueueCache::new(128).unwrap();

    for i in 0..256 {
        cache.put(i, i);
    }
    assert_eq!(cache.recent().len() + cache.frequent().len(), 128);

    // The older half was demoted and then forgotten, the newer half is there.
    for i in 0..128 {
        assert_eq!(cache.get(&i), None, "should be evicted {}", i);
    }
    for i in 128..256 {
        assert_eq!(cache.get(&i), Some(&i), "should not be evicted {}", i);
    }
    for i in 128..192 {
        assert_eq!(cache.remove(&i), Some(i));
        assert_eq!(cache.remove(&i), None);
        assert_eq!(cache.get(&i), None, "should be deleted {}", i);
    }
    assert_eq!(cache.recent().len() + cache.frequent().len(), 64);
}

#[test]
fn test_2q_cache_contains() {
    let mut cache = TwoQueueCache::new(2).unwrap();

    cache.put(1, 1);
    cache.put(2, 2);
    assert!(cache.recent().contains(&1));
    assert!(cache.recent().contains(&2));

    // With no quota of its own, recent gives way as soon as the budget is used.
    cache.put(3, 3);
    assert!(!cache.recent().contains(&1), "should be demoted");
    assert!(!cache.frequent().contains(&1));
    assert!(cache.ghosts().contains(&1));
    assert!(cache.recent().contains(&2));
    assert!(cache.recent().contains(&3));
}

#[test]
fn test_2q_cache_peek() {
    let mut cache = TwoQueueCache::new(2).unwrap();

    cache.put(1, 1);
    cache.put(2, 2);
    assert_eq!(cache.recent().peek(&1), Some(&1));

    // A look into a tier promotes nothing.
    assert_eq!(cache.recent().len(), 2);
    assert_eq!(cache.frequent().len(), 0);

    cache.put(3, 3);
    assert_eq!(cache.recent().peek(&1), None);
    assert_eq!(cache.frequent().peek(&1), None);
    assert_eq!(cache.ghosts().peek(&1), Some(&1));
}

#[test]
fn two_queue_refuses_zero_sizes() {
    assert_eq!(TwoQueueCache::<u64, u64>::new(0).err(), Some(CacheError::InvalidSize(0)));
    assert_eq!(TwoQueueCache::<u64, u64>::new(1).err(), Some(CacheError::InvalidSize(0)));
    assert_eq!(TwoQueueCache::<u64, u64>::with_sizes(0, 0, 3).err(), Some(CacheError::InvalidSize(0)));
    assert_eq!(TwoQueueCache::<u64, u64>::with_sizes(3, 1, 0).err(), Some(CacheError::InvalidSize(0)));
    assert!(TwoQueueCache::<u64, u64>::with_sizes(3, 1, 1).is_ok());
}
