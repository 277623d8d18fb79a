//! The replication metadata that a proxy was given last.

use crate::common::db::DBMapFlags;
use crate::common::text::{decimal_chars, decimal_string};
use crate::proxy::database::DBError;
use crate::proxy::manager::accepts;
use vstd::prelude::*;
use vstd::string::*;

verus! {

/// One pair of a master and a replica of a cluster.
#[derive(Debug, PartialEq, Eq)]
pub struct ReplPeer {
    pub db_name: String,
    pub master_node_address: String,
    pub replica_node_address: String,
}

/// What a proxy is told of replication: for which pairs its backends are the
/// master, and for which the replica.
#[derive(Debug, PartialEq, Eq)]
pub struct ReplicatorMeta {
    pub epoch: u64,
    pub flags: DBMapFlags,
    pub masters: Vec<ReplPeer>,
    pub replicas: Vec<ReplPeer>,
}

/// The text of the report on replication.
pub open spec fn replication_report(epoch: nat, masters: nat, replicas: nat) -> Seq<char> {
    "epoch:"@ + decimal_chars(epoch) + "\r\nmasters:"@ + decimal_chars(masters) + "\r\nreplicas:"@
        + decimal_chars(replicas) + "\r\n"@
}

/// Keeps the replication metadata under the epoch gate.
pub struct ReplicatorManager {
    epoch: u64,
    masters: Vec<ReplPeer>,
    replicas: Vec<ReplPeer>,
}

impl ReplicatorManager {
    pub closed spec fn epoch(&self) -> u64 {
        self.epoch
    }

    pub closed spec fn masters(&self) -> Seq<ReplPeer> {
        self.masters@
    }

    pub closed spec fn replicas(&self) -> Seq<ReplPeer> {
        self.replicas@
    }

    /// A manager at epoch 0 that knows of no pair.
    pub fn new() -> (manager: ReplicatorManager)
        ensures
            manager.epoch() == 0,
            manager.masters().len() == 0,
            manager.replicas().len() == 0,
    {
        ReplicatorManager { epoch: 0, masters: Vec::new(), replicas: Vec::new() }
    }

    /// Takes new metadata where it is newer than what is kept, or forced;
    /// else it is refused and nothing changes.
    pub fn update_replicators(&mut self, meta: ReplicatorMeta) -> (res: Result<(), DBError>)
        ensures
            !accepts(old(self).epoch(), meta.epoch, meta.flags.force) ==> res == Err::<
                (),
                DBError,
            >(DBError::OldEpoch) && *final(self) == *old(self),
            accepts(old(self).epoch(), meta.epoch, meta.flags.force) ==> res == Ok::<(), DBError>(
                (),
            ) && final(self).epoch() == meta.epoch && final(self).masters() == meta.masters@
                && final(self).replicas() == meta.replicas@,
    {
        if meta.epoch <= self.epoch && !meta.flags.force {
            return Err(DBError::OldEpoch);
        }
        self.epoch = meta.epoch;
        self.masters = meta.masters;
        self.replicas = meta.replicas;
        Ok(())
    }

    /// A report for an operator: the epoch and the number of pairs of each
    /// kind.
    pub fn get_metadata_report(&self) -> (report: String)
        ensures
            report@ == replication_report(
                self.epoch() as nat,
                self.masters().len(),
                self.replicas().len(),
            ),
    {
        let mut report = String::from_str("epoch:");
        report.append(decimal_string(self.epoch).as_str());
        report.append("\r\nmasters:");
        report.append(decimal_string(self.masters.len() as u64).as_str());
        report.append("\r\nreplicas:");
        report.append(decimal_string(self.replicas.len() as u64).as_str());
        report.append("\r\n");
        report
    }

    pub fn get_epoch(&self) -> (epoch: u64)
        ensures
            epoch == self.epoch(),
    {
        self.epoch
    }
}

} // verus!
