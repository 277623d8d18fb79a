//! What sends one command to a server that speaks RESP and takes its reply.

use super::resp::{BinSafeStr, Resp};
use vstd::prelude::*;

verus! {

/// Why a command got no reply.
#[derive(Debug, Clone, Copy, PartialEq, Eq, Structural)]
pub enum RedisClientError {
    /// The transport failed.
    Io,
    /// What came back is no RESP.
    InvalidReply,
    /// The connection was closed.
    Closed,
}

/// A client that sends a command, given as its words, to the server at an
/// address and returns the reply.
pub trait RedisClient {
    fn execute(&self, address: String, command: Vec<BinSafeStr>) -> Result<Resp, RedisClientError>;
}

} // verus!
