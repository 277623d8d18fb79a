//! The topology that a coordinator pushes to a proxy, and its form as the
//! arguments of a command.

use super::cluster::{Host, Node};
use super::text::{decimal_chars, decimal_string};
use crate::proxy::slot::{
    copy_ranges, range_views, RangeModel, SlotRange, SlotRangeTag, TagModel,
};
use vstd::prelude::*;
use vstd::string::*;

verus! {

/// The flags of a topology update.
#[derive(Debug, Clone, Copy, PartialEq, Eq, Structural)]
pub struct DBMapFlags {
    /// Whether the update is taken whatever its epoch.
    pub force: bool,
}

impl DBMapFlags {
    /// The token that stands for the flags.
    pub open spec fn arg(&self) -> Seq<char> {
        if self.force {
            "FORCE"@
        } else {
            "NOFLAG"@
        }
    }

    pub fn to_arg(&self) -> (arg: String)
        ensures
            arg@ == self.arg(),
    {
        if self.force {
            String::from_str("FORCE")
        } else {
            String::from_str("NOFLAG")
        }
    }
}

/// The slot ranges that one backend serves for a cluster.
#[derive(Debug, PartialEq, Eq)]
pub struct NodeSlots {
    pub cluster_name: String,
    pub address: String,
    pub slot_ranges: Vec<SlotRange>,
}

impl Clone for NodeSlots {
    fn clone(&self) -> (copy: NodeSlots)
        ensures
            copy.cluster_name == self.cluster_name,
            copy.address == self.address,
            copy.slot_ranges@ == self.slot_ranges@,
    {
        NodeSlots {
            cluster_name: self.cluster_name.clone(),
            address: self.address.clone(),
            slot_ranges: copy_ranges(&self.slot_ranges),
        }
    }
}

/// The model of a backend's entry: cluster, address, ranges.
pub type NodeModel = (Seq<char>, Seq<char>, Seq<RangeModel>);

impl View for NodeSlots {
    type V = NodeModel;

    open spec fn view(&self) -> NodeModel {
        (self.cluster_name@, self.address@, range_views(self.slot_ranges@))
    }
}

/// The views of `nodes`, in order.
pub open spec fn node_views(nodes: Seq<NodeSlots>) -> Seq<NodeModel> {
    Seq::new(nodes.len(), |i: int| nodes[i]@)
}

/// The views of `strings`, in order.
pub open spec fn texts(strings: Seq<String>) -> Seq<Seq<char>> {
    Seq::new(strings.len(), |i: int| strings[i]@)
}

/// The tokens of a tag: its kind, and for a migration the source, the
/// destination and the epoch.
pub open spec fn tag_tokens(tag: TagModel) -> Seq<Seq<char>> {
    match tag {
        TagModel::NoTag => seq!["NONE"@],
        TagModel::Migrating(meta) => seq![
            "MIGRATING"@,
            meta.src,
            meta.dst,
            decimal_chars(meta.epoch),
        ],
        TagModel::Importing(meta) => seq![
            "IMPORTING"@,
            meta.src,
            meta.dst,
            decimal_chars(meta.epoch),
        ],
    }
}

/// The tokens of a range: start, end, tag.
pub open spec fn range_tokens(range: RangeModel) -> Seq<Seq<char>> {
    seq![decimal_chars(range.start), decimal_chars(range.end)] + tag_tokens(range.tag)
}

/// The tokens of `ranges`, range by range.
pub open spec fn ranges_tokens(ranges: Seq<RangeModel>) -> Seq<Seq<char>>
    decreases ranges.len(),
{
    if ranges.len() == 0 {
        Seq::empty()
    } else {
        range_tokens(ranges[0]) + ranges_tokens(ranges.skip(1))
    }
}

/// The tokens of a backend: cluster, address, the number of ranges, and the
/// ranges.
pub open spec fn node_tokens(node: NodeModel) -> Seq<Seq<char>> {
    seq![node.0, node.1, decimal_chars(node.2.len())] + ranges_tokens(node.2)
}

/// The tokens of `nodes`, backend by backend.
pub open spec fn nodes_tokens(nodes: Seq<NodeModel>) -> Seq<Seq<char>>
    decreases nodes.len(),
{
    if nodes.len() == 0 {
        Seq::empty()
    } else {
        node_tokens(nodes[0]) + nodes_tokens(nodes.skip(1))
    }
}

/// Appends `token` to `args`.
fn push_token(args: &mut Vec<String>, token: String)
    ensures
        texts(final(args)@) == texts(old(args)@).push(token@),
{
    args.push(token);
    assert(texts(args@) =~= texts(old(args)@).push(token@));
}

/// Appends the tokens of `tag` to `args`.
fn push_tag(args: &mut Vec<String>, tag: &SlotRangeTag)
    ensures
        texts(final(args)@) == texts(old(args)@) + tag_tokens(tag@),
{
    match tag {
        SlotRangeTag::NoTag => {
            push_token(args, String::from_str("NONE"));
        },
        SlotRangeTag::Migrating(meta) => {
            push_token(args, String::from_str("MIGRATING"));
            push_token(args, meta.src_node_address.clone());
            push_token(args, meta.dst_node_address.clone());
            push_token(args, decimal_string(meta.epoch));
        },
        SlotRangeTag::Importing(meta) => {
            push_token(args, String::from_str("IMPORTING"));
            push_token(args, meta.src_node_address.clone());
            push_token(args, meta.dst_node_address.clone());
            push_token(args, decimal_string(meta.epoch));
        },
    }
    assert(texts(args@) =~= texts(old(args)@) + tag_tokens(tag@));
}

/// The arguments that stand for `range`.
pub fn range_to_args(range: &SlotRange) -> (args: Vec<String>)
    ensures
        texts(args@) == range_tokens(range@),
{
    let mut args: Vec<String> = Vec::new();
    assert(texts(args@) =~= Seq::<Seq<char>>::empty());
    push_token(&mut args, decimal_string(range.start as u64));
    push_token(&mut args, decimal_string(range.end as u64));
    push_tag(&mut args, &range.tag);
    assert(texts(args@) =~= range_tokens(range@));
    args
}

/// Appends the tokens of `node` to `args`.
fn push_node(args: &mut Vec<String>, node: &NodeSlots)
    ensures
        texts(final(args)@) == texts(old(args)@) + node_tokens(node@),
{
    push_token(args, node.cluster_name.clone());
    push_token(args, node.address.clone());
    push_token(args, decimal_string(node.slot_ranges.len() as u64));
    let ghost ranges = range_views(node.slot_ranges@);
    let ghost whole = texts(args@) + ranges_tokens(ranges);
    assert(whole =~= texts(old(args)@) + node_tokens(node@));
    assert(ranges.skip(0) =~= ranges);
    let mut i: usize = 0;
    while i < node.slot_ranges.len()
        invariant
            i <= node.slot_ranges.len(),
            ranges == range_views(node.slot_ranges@),
            texts(args@) + ranges_tokens(ranges.skip(i as int)) == whole,
        decreases node.slot_ranges.len() - i,
    {
        let range = &node.slot_ranges[i];
        let ghost before = texts(args@);
        push_token(args, decimal_string(range.start as u64));
        push_token(args, decimal_string(range.end as u64));
        push_tag(args, &range.tag);
        proof {
            let rest = ranges.skip(i as int);
            assert(rest[0] == range@);
            assert(rest.skip(1) =~= ranges.skip(i + 1));
            assert(texts(args@) =~= before + range_tokens(range@));
            assert(texts(args@) + ranges_tokens(ranges.skip(i + 1)) =~= before + ranges_tokens(
                rest,
            ));
        }
        i += 1;
    }
    assert(ranges.skip(i as int) =~= Seq::<RangeModel>::empty());
    assert(texts(args@) =~= whole);
}

/// The arguments that stand for `nodes`.
pub fn nodes_to_args(nodes: &Vec<NodeSlots>) -> (args: Vec<String>)
    ensures
        texts(args@) == nodes_tokens(node_views(nodes@)),
{
    let mut args: Vec<String> = Vec::new();
    let ghost views = node_views(nodes@);
    assert(texts(args@) =~= Seq::<Seq<char>>::empty());
    assert(views.skip(0) =~= views);
    assert(texts(args@) + nodes_tokens(views) =~= nodes_tokens(views));
    let mut i: usize = 0;
    while i < nodes.len()
        invariant
            i <= nodes.len(),
            views == node_views(nodes@),
            texts(args@) + nodes_tokens(views.skip(i as int)) == nodes_tokens(views),
        decreases nodes.len() - i,
    {
        let ghost before = texts(args@);
        push_node(&mut args, &nodes[i]);
        proof {
            let rest = views.skip(i as int);
            assert(rest[0] == nodes[i as int]@);
            assert(rest.skip(1) =~= views.skip(i + 1));
            assert(texts(args@) + nodes_tokens(views.skip(i + 1)) =~= before + nodes_tokens(rest));
        }
        i += 1;
    }
    assert(views.skip(i as int) =~= Seq::<NodeModel>::empty());
    assert(texts(args@) =~= texts(args@) + nodes_tokens(views.skip(i as int)));
    args
}

/// A copy of `nodes`.
pub fn copy_nodes(nodes: &Vec<NodeSlots>) -> (copy: Vec<NodeSlots>)
    ensures
        node_views(copy@) == node_views(nodes@),
{
    let mut copy: Vec<NodeSlots> = Vec::new();
    let mut i: usize = 0;
    while i < nodes.len()
        invariant
            i <= nodes.len(),
            node_views(copy@) == node_views(nodes@).take(i as int),
        decreases nodes.len() - i,
    {
        let ghost before = node_views(copy@);
        copy.push(nodes[i].clone());
        assert(node_views(copy@) =~= before.push(nodes[i as int]@));
        assert(node_views(nodes@).take(i + 1) =~= before.push(nodes[i as int]@));
        i += 1;
    }
    assert(node_views(nodes@).take(i as int) =~= node_views(nodes@));
    copy
}

/// Whether two entries are for the same backend of the same cluster.
pub open spec fn same_backend(a: Node, b: Node) -> bool {
    a.cluster_name() == b.cluster_name() && a.address() == b.address()
}

/// Whether a later entry of `nodes` is for the backend of entry `i`: the
/// later entry then stands for the backend.
pub open spec fn shadowed(nodes: Seq<Node>, i: int) -> bool {
    exists|j: int| i < j < nodes.len() && same_backend(nodes[i], #[trigger] nodes[j])
}

/// The first `upto` of `nodes` without the shadowed ones.
pub open spec fn live_nodes(nodes: Seq<Node>, upto: int) -> Seq<NodeModel>
    decreases upto,
{
    if upto <= 0 {
        Seq::empty()
    } else if shadowed(nodes, upto - 1) {
        live_nodes(nodes, upto - 1)
    } else {
        live_nodes(nodes, upto - 1).push(
            (
                nodes[upto - 1].cluster_name(),
                nodes[upto - 1].address(),
                range_views(nodes[upto - 1].slots()),
            ),
        )
    }
}

/// Whether a later entry of `nodes` is for the backend of entry `i`.
fn is_shadowed(nodes: &Vec<Node>, i: usize) -> (res: bool)
    requires
        i < nodes.len(),
    ensures
        res == shadowed(nodes@, i as int),
{
    let mut j: usize = i + 1;
    while j < nodes.len()
        invariant
            i < j <= nodes.len(),
            forall|k: int| i < k < j ==> !same_backend(nodes[i as int], #[trigger] nodes[k]),
        decreases nodes.len() - j,
    {
        if *nodes[i].get_cluster_name() == *nodes[j].get_cluster_name()
            && *nodes[i].get_address() == *nodes[j].get_address() {
            return true;
        }
        j += 1;
    }
    false
}

/// A topology as one command carries it.
#[derive(Debug, PartialEq, Eq)]
pub struct HostDBMap {
    epoch: u64,
    flags: DBMapFlags,
    nodes: Vec<NodeSlots>,
}

impl HostDBMap {
    pub closed spec fn epoch(&self) -> u64 {
        self.epoch
    }

    pub closed spec fn flags(&self) -> DBMapFlags {
        self.flags
    }

    pub closed spec fn nodes(&self) -> Seq<NodeSlots> {
        self.nodes@
    }

    pub fn new(epoch: u64, flags: DBMapFlags, nodes: Vec<NodeSlots>) -> (map: HostDBMap)
        ensures
            map.epoch() == epoch,
            map.flags() == flags,
            map.nodes() == nodes@,
    {
        HostDBMap { epoch, flags, nodes }
    }

    /// The topology of `host`: its epoch, and one entry for each backend of
    /// each cluster. Where the host names a backend twice, the later entry
    /// stands.
    pub fn from_host(host: &Host, flags: DBMapFlags) -> (map: HostDBMap)
        ensures
            map.epoch() == host.epoch(),
            map.flags() == flags,
            node_views(map.nodes()) == live_nodes(host.nodes(), host.nodes().len() as int),
    {
        let nodes = host.get_nodes();
        let mut entries: Vec<NodeSlots> = Vec::new();
        assert(node_views(entries@) =~= live_nodes(nodes@, 0));
        let mut i: usize = 0;
        while i < nodes.len()
            invariant
                i <= nodes.len(),
                node_views(entries@) == live_nodes(nodes@, i as int),
            decreases nodes.len() - i,
        {
            if !is_shadowed(nodes, i) {
                let ghost before = node_views(entries@);
                entries.push(
                    NodeSlots {
                        cluster_name: nodes[i].get_cluster_name().clone(),
                        address: nodes[i].get_address().clone(),
                        slot_ranges: copy_ranges(nodes[i].get_slots()),
                    },
                );
                assert(node_views(entries@) =~= before.push(
                    (
                        nodes[i as int].cluster_name(),
                        nodes[i as int].address(),
                        range_views(nodes[i as int].slots()),
                    ),
                ));
            }
            i += 1;
        }
        HostDBMap { epoch: host.get_epoch(), flags, nodes: entries }
    }

    pub fn get_epoch(&self) -> (epoch: u64)
        ensures
            epoch == self.epoch(),
    {
        self.epoch
    }

    pub fn get_flags(&self) -> (flags: DBMapFlags)
        ensures
            flags == self.flags(),
    {
        self.flags
    }

    pub fn get_nodes(&self) -> (nodes: &Vec<NodeSlots>)
        ensures
            nodes@ == self.nodes(),
    {
        &self.nodes
    }

    /// The entries of the topology.
    pub fn into_nodes(self) -> (nodes: Vec<NodeSlots>)
        ensures
            nodes@ == self.nodes(),
    {
        self.nodes
    }

    /// The arguments that stand for the topology, behind the epoch and the
    /// flags: for each backend its cluster, its address, the number of its
    /// ranges, and the ranges.
    pub fn db_map_to_args(&self) -> (args: Vec<String>)
        ensures
            texts(args@) == nodes_tokens(node_views(self.nodes())),
    {
        nodes_to_args(&self.nodes)
    }
}

/// The topology of a proxy: what it serves itself, and what its peers serve.
#[derive(Debug, PartialEq, Eq)]
pub struct ProxyDBMeta {
    epoch: u64,
    flags: DBMapFlags,
    local: Vec<NodeSlots>,
    peer: Vec<NodeSlots>,
}

impl ProxyDBMeta {
    pub closed spec fn epoch(&self) -> u64 {
        self.epoch
    }

    pub closed spec fn flags(&self) -> DBMapFlags {
        self.flags
    }

    pub closed spec fn local(&self) -> Seq<NodeSlots> {
        self.local@
    }

    pub closed spec fn peer(&self) -> Seq<NodeSlots> {
        self.peer@
    }

    pub fn new(epoch: u64, flags: DBMapFlags, local: Vec<NodeSlots>, peer: Vec<NodeSlots>) -> (meta:
        ProxyDBMeta)
        ensures
            meta.epoch() == epoch,
            meta.flags() == flags,
            meta.local() == local@,
            meta.peer() == peer@,
    {
        ProxyDBMeta { epoch, flags, local, peer }
    }

    pub fn get_epoch(&self) -> (epoch: u64)
        ensures
            epoch == self.epoch(),
    {
        self.epoch
    }

    pub fn get_flags(&self) -> (flags: DBMapFlags)
        ensures
            flags == self.flags(),
    {
        self.flags
    }

    pub fn get_local(&self) -> (local: &Vec<NodeSlots>)
        ensures
            local@ == self.local(),
    {
        &self.local
    }

    pub fn get_peer(&self) -> (peer: &Vec<NodeSlots>)
        ensures
            peer@ == self.peer(),
    {
        &self.peer
    }
}

} // verus!
