//! What the proxy and the coordinator share: the topology and its wire form.

pub mod args;
pub mod batch_write;
pub mod cluster;
pub mod db;
pub mod search;
pub mod text;
