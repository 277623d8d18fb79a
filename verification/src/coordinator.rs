//! The coordinator side: it reads the topology from a broker and pushes it
//! to the proxies.

pub mod broker;
pub mod round;
pub mod sync;
