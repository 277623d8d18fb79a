//! Data-plane core of a sharding proxy for Redis: the RESP codec, the slot
//! router, the metadata map with its epoch gate, the migration state machine,
//! the per-connection session logic and the coordinator's topology push.

pub mod common;
pub mod coordinator;
pub mod migration;
pub mod protocol;
pub mod proxy;
pub mod replication;
