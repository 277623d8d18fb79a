//! The proxy side: routing, metadata, migration and sessions.

pub mod backend;
pub mod command;
pub mod database;
pub mod manager;
pub mod queue;
pub mod service;
pub mod shared;
pub mod session;
pub mod slot;
pub mod topology;
pub mod umctl;
