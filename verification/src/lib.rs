//! A per-named-queue delay/priority store.
//!
//! Items are keyed by a primary timestamp, with an optional secondary
//! timestamp as tie-breaker (an absent secondary sorts before any present
//! value). Producers `put` items; consumers `get` (peek) or `delete`
//! (atomically remove) the earliest-keyed item. Queue names come from a
//! fixed allow-list chosen at startup.

use vstd::prelude::*;

pub mod api;
pub mod codec;
pub mod config;
pub mod item;
pub mod memory;
pub mod names;
pub mod queue;
pub mod sqlite;
pub mod storage;

pub use api::{ApiResponse, JsonError, delete_item, get_item, json_error, put_item};
pub use config::AppConfig;
pub use item::QueueItem;
pub use memory::InMemoryStorage;
pub use names::sanitize_queue_name;
pub use queue::Queue;
pub use sqlite::SqliteStorage;
pub use storage::{Storage, StorageError, StorageResult};

verus! {

} // verus!
