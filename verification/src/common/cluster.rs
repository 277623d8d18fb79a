//! Backends, hosts and the topology of a proxy.

use crate::proxy::slot::SlotRange;
use vstd::prelude::*;

verus! {

/// A migration as the switch commands name it: the cluster and the range,
/// whose tag holds the two ends and the epoch.
#[derive(Debug, PartialEq, Eq)]
pub struct MigrationTaskMeta {
    pub db_name: String,
    pub slot_range: SlotRange,
}

impl Clone for MigrationTaskMeta {
    fn clone(&self) -> (copy: MigrationTaskMeta)
        ensures
            copy == *self,
    {
        MigrationTaskMeta { db_name: self.db_name.clone(), slot_range: self.slot_range.clone() }
    }
}

/// Whether a backend takes writes or follows one that does.
#[derive(Debug, Clone, Copy, PartialEq, Eq, Structural)]
pub enum Role {
    Master,
    Replica,
}

/// One backend and the slot ranges that it serves for a cluster.
#[derive(Debug, PartialEq, Eq)]
pub struct Node {
    address: String,
    cluster_name: String,
    slots: Vec<SlotRange>,
    repl_role: Role,
}

impl Node {
    pub closed spec fn address(&self) -> Seq<char> {
        self.address@
    }

    pub closed spec fn cluster_name(&self) -> Seq<char> {
        self.cluster_name@
    }

    pub closed spec fn slots(&self) -> Seq<SlotRange> {
        self.slots@
    }

    pub closed spec fn role(&self) -> Role {
        self.repl_role
    }

    /// A backend has no more ranges than can be counted.
    pub proof fn lemma_slots_fit(&self)
        ensures
            self.slots().len() <= usize::MAX,
    {
        assert(self.slots@.len() == self.slots.len());
    }

    pub fn new(address: String, cluster_name: String, slots: Vec<SlotRange>, repl_role: Role) -> (node:
        Node)
        ensures
            node.address() == address@,
            node.cluster_name() == cluster_name@,
            node.slots() == slots@,
            node.role() == repl_role,
    {
        Node { address, cluster_name, slots, repl_role }
    }

    pub fn get_address(&self) -> (address: &String)
        ensures
            address@ == self.address(),
    {
        &self.address
    }

    pub fn get_cluster_name(&self) -> (name: &String)
        ensures
            name@ == self.cluster_name(),
    {
        &self.cluster_name
    }

    pub fn get_slots(&self) -> (slots: &Vec<SlotRange>)
        ensures
            slots@ == self.slots(),
    {
        &self.slots
    }

    pub fn get_role(&self) -> (role: Role)
        ensures
            role == self.role(),
    {
        self.repl_role
    }
}

/// The backends behind one proxy address, as of an epoch.
#[derive(Debug, PartialEq, Eq)]
pub struct Host {
    address: String,
    epoch: u64,
    nodes: Vec<Node>,
}

impl Host {
    pub closed spec fn address(&self) -> Seq<char> {
        self.address@
    }

    pub closed spec fn epoch(&self) -> u64 {
        self.epoch
    }

    pub closed spec fn nodes(&self) -> Seq<Node> {
        self.nodes@
    }

    pub fn new(address: String, epoch: u64, nodes: Vec<Node>) -> (host: Host)
        ensures
            host.address() == address@,
            host.epoch() == epoch,
            host.nodes() == nodes@,
    {
        Host { address, epoch, nodes }
    }

    pub fn get_address(&self) -> (address: &String)
        ensures
            address@ == self.address(),
    {
        &self.address
    }

    pub fn get_epoch(&self) -> (epoch: u64)
        ensures
            epoch == self.epoch(),
    {
        self.epoch
    }

    pub fn get_nodes(&self) -> (nodes: &Vec<Node>)
        ensures
            nodes@ == self.nodes(),
    {
        &self.nodes
    }
}

} // verus!
