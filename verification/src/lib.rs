//! An insert-stabilizing key/value cache.
//!
//! `HashCache` maps owned string keys to values. Once a value has been
//! stored for a key it is never replaced or removed by further lookups or
//! inserts: only [`HashCache::clear`], which demands exclusive access to the
//! whole cache, empties the table. Every public contract is stated over the
//! cache's abstract view, a map from key characters to values, so that a
//! caller can reason about lookups and inserts without seeing the table;
//! [`laws`] proves the guarantees that follow for callers.

mod pin_box;

pub mod cache;
pub mod laws;

pub use cache::HashCache;
pub use cache::HashCacheConfig;
