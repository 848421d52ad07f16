//! Fixed-capacity, in-memory key-value caches.
//!
//! [`RawLRU`] is a single-tier least-recently-used cache: an arena of entries
//! threaded on a doubly linked recency list, with a hash index from key to
//! arena slot. [`TwoQueueCache`] layers three such engines into a 2Q cache
//! that separates recently seen keys from frequently seen ones. The index is
//! any [`KeyIndex`]: `std`'s hash map for any key, or hashbrown's for `u64`
//! keys ([`FastIndex`]).
//!
//! Every executable function carries a contract over a mathematical model of
//! the cache: the sequence of its entries, most recently used first. What
//! holds of every cache is stated and proved in [`laws`].

pub mod callback;
pub mod error;
pub mod index;
pub mod iter;
pub mod laws;
pub mod list;
pub mod model;
pub mod raw;
pub mod result;
pub mod store;
pub mod tiers;
pub mod two_queue;

pub use callback::{DefaultEvictCallback, OnEvictCallback};
pub use error::{check_size, CacheError};
pub use index::{FastIndex, KeyIndex};
pub use iter::{Iter, IterMut, Keys};
pub use list::EntryNode;
pub use raw::{DefaultHashBuilder, RawLRU};
pub use result::PutResult;
pub use tiers::{Quotas, Tiers};
pub use two_queue::TwoQueueCache;
