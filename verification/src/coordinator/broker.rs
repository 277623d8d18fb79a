//! The store that holds the topology. The coordinator only reads it.

use crate::common::cluster::Host;
use vstd::prelude::*;

verus! {

/// Why the broker gave no answer.
#[derive(Debug, Clone, Copy, PartialEq, Eq, Structural)]
pub enum MetaDataBrokerError {
    /// The transport failed.
    Io,
    /// What came back could not be read.
    InvalidReply,
}

/// The broker: for the address of a proxy, the host that the proxy serves
/// and the host that its peers serve, as far as the broker knows them.
pub trait MetaDataBroker {
    fn get_host(&self, address: String) -> Result<Option<Host>, MetaDataBrokerError>;

    fn get_peer(&self, address: String) -> Result<Option<Host>, MetaDataBrokerError>;
}

} // verus!
