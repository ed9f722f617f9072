//! An embedded, single-process persistence engine.
//!
//! The engine turns an in-memory data structure into a durable store by
//! combining full-state snapshots ("checkpoints") with an append-only log of
//! mutating operations ("updates").  After a crash it recovers
//! deterministically by loading the last committed checkpoint and replaying
//! the log recorded since it.
//!
//! The verified core works against an in-memory model of the store directory
//! ([`dir::Dir`]); every operation that has to reach the real file system
//! reports the file operations it performed as [`dir::FsAction`] values, which
//! an unverified shell replays on disk.

use vstd::prelude::*;

pub mod dir;
pub mod engine;
pub mod errors;
pub mod json;
pub mod kv;
pub mod laws;
pub mod names;
pub mod num;
pub mod traits;

pub use dir::{Dir, FsAction};
pub use engine::{Database, OpenOutcome};
pub use errors::StoreError;
pub use json::JsonFormat;
pub use kv::{KeyValueStore, KeyValueStoreReadParams, KeyValueStoreReadReturn,
    KeyValueStoreUpdateParams, KeyValueStoreUpdateReturn};
pub use traits::{DataFormat, Readable, Updateable};

verus! {

} // verus!
