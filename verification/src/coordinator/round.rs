//! One round of the coordinator: for each proxy, read its topology and push
//! it.

use super::broker::MetaDataBrokerError;
use crate::common::cluster::Host;
use crate::protocol::client::RedisClientError;
use vstd::prelude::*;

verus! {

/// Why a proxy was not brought up to date.
#[derive(Debug, Clone, Copy, PartialEq, Eq, Structural)]
pub enum CoordinateError {
    /// The broker gave no answer.
    MetaData(MetaDataBrokerError),
    /// The proxy could not be reached.
    Redis(RedisClientError),
    /// The proxy answered with an error.
    InvalidReply,
}

/// What gives the topology that a proxy is to have.
pub trait HostMetaRetriever {
    fn get_host_meta(&self, address: String) -> Result<Option<Host>, CoordinateError>;
}

/// What pushes a topology to the proxy it is for.
pub trait HostMetaSender {
    fn send_meta(&self, host: Host) -> Result<(), CoordinateError>;
}

/// What became of a proxy in a round.
#[derive(Debug, Clone, Copy, PartialEq, Eq, Structural)]
pub enum SyncOutcome {
    /// The topology was pushed and taken.
    Pushed,
    /// The broker knows no host for the proxy: nothing was pushed.
    Unknown,
    /// The round failed for the proxy.
    Failed(CoordinateError),
}

/// What pushing a host ended in.
pub fn push_outcome(pushed: Result<(), CoordinateError>) -> (outcome: SyncOutcome)
    ensures
        outcome == match pushed {
            Ok(()) => SyncOutcome::Pushed,
            Err(e) => SyncOutcome::Failed(e),
        },
{
    match pushed {
        Ok(()) => SyncOutcome::Pushed,
        Err(e) => SyncOutcome::Failed(e),
    }
}

/// Brings one proxy up to date: reads its topology and, where there is one,
/// pushes it.
pub fn sync_host<R: HostMetaRetriever, S: HostMetaSender>(
    retriever: &R,
    sender: &S,
    address: String,
) -> (outcome: SyncOutcome) {
    match host_to_push(retriever.get_host_meta(address)) {
        Ok(host) => push_outcome(sender.send_meta(host)),
        Err(outcome) => outcome,
    }
}

/// One round: each proxy of `addresses` is brought up to date in turn. A
/// proxy that fails does not end the round; there is one outcome for each
/// proxy, in their order.
pub fn sync_hosts<R: HostMetaRetriever, S: HostMetaSender>(
    retriever: &R,
    sender: &S,
    addresses: &Vec<String>,
) -> (outcomes: Vec<SyncOutcome>)
    ensures
        outcomes@.len() == addresses@.len(),
{
    let mut outcomes: Vec<SyncOutcome> = Vec::new();
    let mut i: usize = 0;
    while i < addresses.len()
        invariant
            i <= addresses.len(),
            outcomes@.len() == i,
        decreases addresses.len() - i,
    {
        outcomes.push(sync_host(retriever, sender, addresses[i].clone()));
        i += 1;
    }
    outcomes
}

/// What the answer of the retriever means for a proxy's round: a host is to
/// be pushed; without a host the round ends as unknown, and on a failure as
/// failed.
pub fn host_to_push(retrieved: Result<Option<Host>, CoordinateError>) -> (res: Result<
    Host,
    SyncOutcome,
>)
    ensures
        res == match retrieved {
            Ok(Some(host)) => Ok::<Host, SyncOutcome>(host),
            Ok(None) => Err::<Host, SyncOutcome>(SyncOutcome::Unknown),
            Err(e) => Err::<Host, SyncOutcome>(SyncOutcome::Failed(e)),
        },
{
    match retrieved {
        Ok(Some(host)) => Ok(host),
        Ok(None) => Err(SyncOutcome::Unknown),
        Err(e) => Err(SyncOutcome::Failed(e)),
    }
}

} // verus!
