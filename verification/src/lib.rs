//! A bounded, size-aware key-value cache with oldest-first eviction and a
//! bounded record of recently evicted keys.

pub mod cache;
pub mod laws;
pub mod lemmas;
pub mod model;
pub mod trusted;

pub use crate::cache::{CacheError, LRU};
