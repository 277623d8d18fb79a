//! The topology of a cluster as replies to a client: which backend serves
//! which slots.

use super::slot::{range_views, RangeModel};
use crate::common::db::{node_views, NodeModel, NodeSlots};
use crate::common::text::{decimal_chars, decimal_string};
use crate::protocol::encoder::{render_nat, write_nat};
use crate::protocol::resp::{model_of_items, Array, BulkStr, Resp, RespValue};
use vstd::prelude::*;
use vstd::string::*;
use vstd::utf8::encode_utf8;

verus! {

/// The entry of a range in the slots reply: its first slot, its last slot,
/// and the address of the backend.
pub open spec fn slot_entry(address: Seq<char>, range: RangeModel) -> RespValue {
    RespValue::Array(
        Some(
            seq![
                RespValue::Integer(render_nat(range.start)),
                RespValue::Integer(render_nat((range.end - 1) as nat)),
                RespValue::Array(Some(seq![RespValue::Bulk(Some(encode_utf8(address)))])),
            ],
        ),
    )
}

/// The entries of the first `upto` ranges of a backend. A range without a
/// slot has none.
pub open spec fn node_entries(address: Seq<char>, ranges: Seq<RangeModel>, upto: int) -> Seq<
    RespValue,
>
    decreases upto,
{
    if upto <= 0 {
        Seq::empty()
    } else if ranges[upto - 1].start < ranges[upto - 1].end {
        node_entries(address, ranges, upto - 1).push(slot_entry(address, ranges[upto - 1]))
    } else {
        node_entries(address, ranges, upto - 1)
    }
}

/// The entries of those of the first `upto` backends that belong to the
/// cluster `db`, backend by backend.
pub open spec fn cluster_entries(nodes: Seq<NodeModel>, db: Seq<char>, upto: int) -> Seq<RespValue>
    decreases upto,
{
    if upto <= 0 {
        Seq::empty()
    } else if nodes[upto - 1].0 == db {
        cluster_entries(nodes, db, upto - 1) + node_entries(
            nodes[upto - 1].1,
            nodes[upto - 1].2,
            nodes[upto - 1].2.len() as int,
        )
    } else {
        cluster_entries(nodes, db, upto - 1)
    }
}

/// The decimal digits of `n` as bytes.
fn decimal_bytes(n: usize) -> (bytes: Vec<u8>)
    ensures
        bytes@ == render_nat(n as nat),
{
    let mut bytes: Vec<u8> = Vec::new();
    write_nat(&mut bytes, n);
    assert(bytes@ =~= render_nat(n as nat));
    bytes
}

/// Appends the entries of the backends of `nodes` that belong to the
/// cluster `db` to `entries`.
pub fn push_cluster_slots(entries: &mut Vec<Resp>, nodes: &Vec<NodeSlots>, db: &String)
    ensures
        model_of_items(final(entries)@) == model_of_items(old(entries)@) + cluster_entries(
            node_views(nodes@),
            db@,
            nodes@.len() as int,
        ),
{
    let ghost views = node_views(nodes@);
    let ghost start = model_of_items(entries@);
    assert(start + cluster_entries(views, db@, 0) =~= start);
    let mut i: usize = 0;
    while i < nodes.len()
        invariant
            i <= nodes.len(),
            views == node_views(nodes@),
            start == model_of_items(old(entries)@),
            model_of_items(entries@) == start + cluster_entries(views, db@, i as int),
        decreases nodes.len() - i,
    {
        let node = &nodes[i];
        if node.cluster_name == *db {
            let ghost ranges = range_views(node.slot_ranges@);
            let ghost base = model_of_items(entries@);
            assert(base + node_entries(node.address@, ranges, 0) =~= base);
            let mut j: usize = 0;
            while j < node.slot_ranges.len()
                invariant
                    j <= node.slot_ranges.len(),
                    ranges == range_views(node.slot_ranges@),
                    model_of_items(entries@) == base + node_entries(
                        node.address@,
                        ranges,
                        j as int,
                    ),
                decreases node.slot_ranges.len() - j,
            {
                let range = &node.slot_ranges[j];
                if range.start < range.end {
                    let ghost before = model_of_items(entries@);
                    let entry = Resp::Arr(
                        Array::Arr(
                            vec![
                                Resp::Integer(decimal_bytes(range.start)),
                                Resp::Integer(decimal_bytes(range.end - 1)),
                                Resp::Arr(
                                    Array::Arr(
                                        vec![
                                            Resp::Bulk(
                                                BulkStr::Str(node.address.as_str().as_bytes_vec()),
                                            ),
                                        ],
                                    ),
                                ),
                            ],
                        ),
                    );
                    proof {
                        let inner = entry->Arr_0->Arr_0@;
                        let host = inner[2]->Arr_0->Arr_0@;
                        assert(model_of_items(host) =~= seq![
                            RespValue::Bulk(Some(encode_utf8(node.address@))),
                        ]);
                        assert(model_of_items(inner) =~= seq![
                            RespValue::Integer(render_nat(range.start as nat)),
                            RespValue::Integer(render_nat((range.end - 1) as nat)),
                            RespValue::Array(
                                Some(seq![RespValue::Bulk(Some(encode_utf8(node.address@)))]),
                            ),
                        ]);
                        assert(entry@ == slot_entry(node.address@, ranges[j as int]));
                    }
                    entries.push(entry);
                    assert(model_of_items(entries@) =~= before.push(entry@));
                }
                j += 1;
            }
            assert(model_of_items(entries@) =~= start + cluster_entries(views, db@, i + 1));
        }
        i += 1;
    }
}

/// The text of a range: its first slot, a hyphen, its last slot.
pub open spec fn range_text(range: RangeModel) -> Seq<char> {
    decimal_chars(range.start) + "-"@ + decimal_chars((range.end - 1) as nat)
}

/// The texts of the first `upto` ranges, a space before each. A range
/// without a slot has none.
pub open spec fn ranges_text(ranges: Seq<RangeModel>, upto: int) -> Seq<char>
    decreases upto,
{
    if upto <= 0 {
        Seq::empty()
    } else if ranges[upto - 1].start < ranges[upto - 1].end {
        ranges_text(ranges, upto - 1) + " "@ + range_text(ranges[upto - 1])
    } else {
        ranges_text(ranges, upto - 1)
    }
}

/// The lines of those of the first `upto` backends that belong to the
/// cluster `db`: the address, the ranges, a line feed.
pub open spec fn cluster_lines(nodes: Seq<NodeModel>, db: Seq<char>, upto: int) -> Seq<char>
    decreases upto,
{
    if upto <= 0 {
        Seq::empty()
    } else if nodes[upto - 1].0 == db {
        cluster_lines(nodes, db, upto - 1) + nodes[upto - 1].1 + ranges_text(
            nodes[upto - 1].2,
            nodes[upto - 1].2.len() as int,
        ) + "\n"@
    } else {
        cluster_lines(nodes, db, upto - 1)
    }
}

/// Appends the lines of the backends of `nodes` that belong to the cluster
/// `db` to `text`.
pub fn push_cluster_lines(text: &mut String, nodes: &Vec<NodeSlots>, db: &String)
    ensures
        final(text)@ == old(text)@ + cluster_lines(node_views(nodes@), db@, nodes@.len() as int),
{
    let ghost views = node_views(nodes@);
    let ghost start = text@;
    assert(start + cluster_lines(views, db@, 0) =~= start);
    let mut i: usize = 0;
    while i < nodes.len()
        invariant
            i <= nodes.len(),
            views == node_views(nodes@),
            text@ == start + cluster_lines(views, db@, i as int),
        decreases nodes.len() - i,
    {
        let node = &nodes[i];
        if node.cluster_name == *db {
            let ghost ranges = range_views(node.slot_ranges@);
            let ghost line = text@;
            text.append(node.address.as_str());
            assert(text@ =~= line + node.address@ + ranges_text(ranges, 0));
            let mut j: usize = 0;
            while j < node.slot_ranges.len()
                invariant
                    j <= node.slot_ranges.len(),
                    ranges == range_views(node.slot_ranges@),
                    text@ == line + node.address@ + ranges_text(ranges, j as int),
                decreases node.slot_ranges.len() - j,
            {
                let range = &node.slot_ranges[j];
                if range.start < range.end {
                    let ghost before = text@;
                    text.append(" ");
                    text.append(decimal_string(range.start as u64).as_str());
                    text.append("-");
                    text.append(decimal_string((range.end - 1) as u64).as_str());
                    assert(text@ =~= before + " "@ + range_text(ranges[j as int]));
                    assert(text@ =~= line + node.address@ + ranges_text(ranges, j + 1));
                }
                j += 1;
            }
            text.append("\n");
            assert(text@ =~= start + cluster_lines(views, db@, i + 1));
        }
        i += 1;
    }
}

} // verus!
