//! A sharded in-memory key-value store: a fixed row of partitions, each a
//! map from string keys to byte values behind its own read-write lock, with
//! every key routed to exactly one partition by a hash of its characters.

pub mod command;
pub mod model;
pub mod payload;
pub mod routing;
pub mod shard;
pub mod store;

pub use command::{execute, Reply, Request};
pub use routing::route;
pub use shard::Shard;
pub use store::{ShardedDb, StoreError};
