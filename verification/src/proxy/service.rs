//! What a proxy is started with.

use vstd::prelude::*;

verus! {

/// The configuration of a proxy.
#[derive(Debug, Clone)]
pub struct ServerProxyConfig {
    /// The address on which the proxy takes connections.
    pub address: String,
    /// Whether a session that selected no database gets the only one.
    pub auto_select_db: bool,
}

} // verus!
