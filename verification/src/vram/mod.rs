//! The pool of resident models.

pub mod lru;
pub mod pool;

pub use crate::types::ModelId;
pub use lru::{CacheKey, LruCache, LruEntry, LruView};
pub use pool::{Model, PoolView, Resident, Slot, SlotView, VramPool};
