//! The replication metadata of a proxy. Setting replication up is done
//! outside; here is what is kept of it.

pub mod manager;
