//! Moving a slot range from one backend to another while it is served.

pub mod delete_keys;
pub mod manager;
pub mod task;
