//! Eviction notification.

use vstd::prelude::*;

verus! {

/// What a cache tells its owner whenever an entry leaves it: on removal, on
/// eviction for want of room, on shrinking and on purging.
///
/// A cache promises which pairs it reports and in which order (see
/// `RawLRU::notified`); what an implementation does with them is its own
/// affair.
pub trait OnEvictCallback {
    /// Called once for each entry that leaves the cache.
    fn on_evict<K, V>(&self, key: &K, val: &V);
}

/// The callback that does nothing.
#[derive(Debug, Clone, Copy)]
pub struct DefaultEvictCallback;

impl OnEvictCallback for DefaultEvictCallback {
    fn on_evict<K, V>(&self, _key: &K, _val: &V) {
    }
}

} // verus!
