//! Reading a topology back from the arguments of a command.

use super::cluster::Node;
use super::db::{
    live_nodes, node_tokens, node_views, nodes_tokens, range_tokens, ranges_tokens, tag_tokens,
    texts, DBMapFlags, HostDBMap, NodeModel, NodeSlots,
};
use super::text::{decimal_chars, decimal_value, lemma_decimal_round_trip, parse_decimal};
use crate::proxy::slot::{
    range_views, MetaModel, MigrationMeta, RangeModel, SlotRange, SlotRangeTag, TagModel,
};
use vstd::prelude::*;
use vstd::string::*;

verus! {

/// What reading at a position gives: a value and the position behind it, or
/// nothing where the words do not fit.
pub enum Read<T> {
    Done { value: T, end: int },
    Invalid,
}

/// The number at `pos`, where there is one that is no more than `max`.
pub open spec fn number_at(tokens: Seq<Seq<char>>, pos: int, max: nat) -> Option<nat> {
    if 0 <= pos < tokens.len() {
        match decimal_value(tokens[pos]) {
            Some(n) => if n <= max {
                Some(n)
            } else {
                None
            },
            None => None,
        }
    } else {
        None
    }
}

/// A tag at `pos`: `NONE`, or `MIGRATING` or `IMPORTING` with a source, a
/// destination and an epoch.
pub open spec fn read_tag(tokens: Seq<Seq<char>>, pos: int) -> Read<TagModel> {
    if pos < 0 || pos >= tokens.len() {
        Read::Invalid
    } else if tokens[pos] == "NONE"@ {
        Read::Done { value: TagModel::NoTag, end: pos + 1 }
    } else if tokens[pos] == "MIGRATING"@ || tokens[pos] == "IMPORTING"@ {
        match number_at(tokens, pos + 3, u64::MAX as nat) {
            Some(epoch) => {
                let meta = MetaModel { epoch, src: tokens[pos + 1], dst: tokens[pos + 2] };
                Read::Done {
                    value: if tokens[pos] == "MIGRATING"@ {
                        TagModel::Migrating(meta)
                    } else {
                        TagModel::Importing(meta)
                    },
                    end: pos + 4,
                }
            },
            None => Read::Invalid,
        }
    } else {
        Read::Invalid
    }
}

/// A range at `pos`: start, end, tag.
pub open spec fn read_range(tokens: Seq<Seq<char>>, pos: int) -> Read<RangeModel> {
    match (
        number_at(tokens, pos, usize::MAX as nat),
        number_at(tokens, pos + 1, usize::MAX as nat),
    ) {
        (Some(start), Some(end)) => match read_tag(tokens, pos + 2) {
            Read::Done { value: tag, end: next } => Read::Done {
                value: RangeModel { start, end, tag },
                end: next,
            },
            Read::Invalid => Read::Invalid,
        },
        _ => Read::Invalid,
    }
}

/// `read` with `front` put before its items.
pub open spec fn after<T>(front: Seq<T>, read: Read<Seq<T>>) -> Read<Seq<T>> {
    match read {
        Read::Done { value, end } => Read::Done { value: front + value, end },
        Read::Invalid => Read::Invalid,
    }
}

/// `count` ranges from `pos` on.
pub open spec fn read_ranges(tokens: Seq<Seq<char>>, pos: int, count: nat) -> Read<Seq<RangeModel>>
    decreases count,
{
    if count == 0 {
        Read::Done { value: Seq::empty(), end: pos }
    } else {
        match read_range(tokens, pos) {
            Read::Done { value, end } => after(
                seq![value],
                read_ranges(tokens, end, (count - 1) as nat),
            ),
            Read::Invalid => Read::Invalid,
        }
    }
}

/// A backend at `pos`: cluster, address, the number of ranges, the ranges.
pub open spec fn read_node(tokens: Seq<Seq<char>>, pos: int) -> Read<NodeModel> {
    if pos < 0 || pos + 2 >= tokens.len() {
        Read::Invalid
    } else {
        match number_at(tokens, pos + 2, usize::MAX as nat) {
            Some(count) => match read_ranges(tokens, pos + 3, count) {
                Read::Done { value, end } => Read::Done {
                    value: (tokens[pos], tokens[pos + 1], value),
                    end,
                },
                Read::Invalid => Read::Invalid,
            },
            None => Read::Invalid,
        }
    }
}

/// `rest` with `first` put before it.
pub open spec fn with_first(first: NodeModel, rest: Option<Seq<NodeModel>>) -> Option<
    Seq<NodeModel>,
> {
    match rest {
        Some(nodes) => Some(seq![first] + nodes),
        None => None,
    }
}

/// The backends that the words from `pos` to the end spell, one behind the
/// other; `None` where the words do not fit.
pub open spec fn read_nodes(tokens: Seq<Seq<char>>, pos: int) -> Option<Seq<NodeModel>>
    decreases tokens.len() - pos,
{
    if pos < 0 {
        None
    } else if pos >= tokens.len() {
        Some(Seq::empty())
    } else {
        match read_node(tokens, pos) {
            Read::Done { value, end } => if pos < end <= tokens.len() {
                with_first(value, read_nodes(tokens, end))
            } else {
                None
            },
            Read::Invalid => None,
        }
    }
}

/// Reads the number at `pos`.
fn parse_number(tokens: &Vec<String>, pos: usize) -> (res: Option<u64>)
    ensures
        res matches Some(n) ==> number_at(texts(tokens@), pos as int, u64::MAX as nat) == Some(
            n as nat,
        ),
        res is None ==> number_at(texts(tokens@), pos as int, u64::MAX as nat) is None,
{
    if pos >= tokens.len() {
        return None;
    }
    parse_decimal(tokens[pos].as_str())
}

/// Reads the number at `pos` that a `usize` holds.
fn parse_size(tokens: &Vec<String>, pos: usize) -> (res: Option<usize>)
    ensures
        res matches Some(n) ==> number_at(texts(tokens@), pos as int, usize::MAX as nat) == Some(
            n as nat,
        ),
        res is None ==> number_at(texts(tokens@), pos as int, usize::MAX as nat) is None,
{
    match parse_number(tokens, pos) {
        Some(n) => if n <= usize::MAX as u64 {
            Some(n as usize)
        } else {
            None
        },
        None => None,
    }
}

/// Reads the tag at `pos`.
fn parse_tag(tokens: &Vec<String>, pos: usize) -> (res: Option<(SlotRangeTag, usize)>)
    ensures
        match read_tag(texts(tokens@), pos as int) {
            Read::Done { value, end } => res matches Some(read) && read.0@ == value && read.1
                == end,
            Read::Invalid => res is None,
        },
{
    if pos >= tokens.len() {
        return None;
    }
    let kind = &tokens[pos];
    if *kind == String::from_str("NONE") {
        return Some((SlotRangeTag::NoTag, pos + 1));
    }
    let migrating = *kind == String::from_str("MIGRATING");
    let importing = *kind == String::from_str("IMPORTING");
    if !migrating && !importing {
        return None;
    }
    if pos >= usize::MAX - 3 {
        return None;
    }
    let epoch = match parse_number(tokens, pos + 3) {
        Some(epoch) => epoch,
        None => {
            return None;
        },
    };
    let meta = MigrationMeta {
        epoch,
        src_node_address: tokens[pos + 1].clone(),
        dst_node_address: tokens[pos + 2].clone(),
    };
    if migrating {
        Some((SlotRangeTag::Migrating(meta), pos + 4))
    } else {
        Some((SlotRangeTag::Importing(meta), pos + 4))
    }
}

/// Reads the range at `pos`.
fn parse_range(tokens: &Vec<String>, pos: usize) -> (res: Option<(SlotRange, usize)>)
    ensures
        match read_range(texts(tokens@), pos as int) {
            Read::Done { value, end } => res matches Some(read) && read.0@ == value && read.1
                == end,
            Read::Invalid => res is None,
        },
{
    if pos >= tokens.len() || pos >= usize::MAX - 2 {
        return None;
    }
    let start = match parse_size(tokens, pos) {
        Some(n) => n,
        None => {
            return None;
        },
    };
    let end = match parse_size(tokens, pos + 1) {
        Some(n) => n,
        None => {
            return None;
        },
    };
    match parse_tag(tokens, pos + 2) {
        Some((tag, next)) => Some((SlotRange { start, end, tag }, next)),
        None => None,
    }
}

/// Reads the range at `pos`, and gives the position behind it.
pub fn parse_range_at(tokens: &Vec<String>, pos: usize) -> (res: Option<(SlotRange, usize)>)
    ensures
        match read_range(texts(tokens@), pos as int) {
            Read::Done { value, end } => res matches Some(read) && read.0@ == value && read.1
                == end,
            Read::Invalid => res is None,
        },
{
    parse_range(tokens, pos)
}

/// Reads the backend at `pos`.
fn parse_node(tokens: &Vec<String>, pos: usize) -> (res: Option<(NodeSlots, usize)>)
    ensures
        match read_node(texts(tokens@), pos as int) {
            Read::Done { value, end } => res matches Some(read) && read.0@ == value && read.1
                == end && end <= tokens@.len(),
            Read::Invalid => res is None,
        },
{
    if pos >= tokens.len() || tokens.len() - pos <= 2 {
        return None;
    }
    let count = match parse_size(tokens, pos + 2) {
        Some(n) => n,
        None => {
            return None;
        },
    };
    let ghost words = texts(tokens@);
    let ghost whole = read_ranges(words, pos + 3, count as nat);
    let mut ranges: Vec<SlotRange> = Vec::new();
    let mut at: usize = pos + 3;
    let mut left: usize = count;
    proof {
        assert(range_views(ranges@) =~= Seq::<RangeModel>::empty());
        if let Read::Done { value, end } = whole {
            assert(Seq::<RangeModel>::empty() + value =~= value);
        }
    }
    while left > 0
        invariant
            words == texts(tokens@),
            pos + 3 <= at <= tokens.len(),
            number_at(words, pos + 2, usize::MAX as nat) == Some(count as nat),
            whole == read_ranges(words, pos + 3, count as nat),
            whole == after(range_views(ranges@), read_ranges(words, at as int, left as nat)),
        decreases left,
    {
        let ghost front = range_views(ranges@);
        match parse_range(tokens, at) {
            Some((range, next)) => {
                proof {
                    let rest = read_ranges(words, next as int, (left - 1) as nat);
                    assert(range_views(ranges@.push(range)) =~= front + seq![range@]);
                    if let Read::Done { value, end } = rest {
                        assert(front + (seq![range@] + value) =~= (front + seq![range@]) + value);
                    }
                    lemma_read_range_end(words, at as int);
                }
                ranges.push(range);
                at = next;
                left -= 1;
            },
            None => {
                return None;
            },
        }
    }
    proof {
        assert(range_views(ranges@) + Seq::<RangeModel>::empty() =~= range_views(ranges@));
    }
    Some(
        (
            NodeSlots {
                cluster_name: tokens[pos].clone(),
                address: tokens[pos + 1].clone(),
                slot_ranges: ranges,
            },
            at,
        ),
    )
}

/// A range that was read ends behind where it starts, within the words.
pub proof fn lemma_read_range_end(tokens: Seq<Seq<char>>, pos: int)
    requires
        read_range(tokens, pos) is Done,
    ensures
        pos + 3 <= read_range(tokens, pos)->end <= tokens.len(),
{
}

/// Reads the backends that the words from `from` to the end spell. `None`
/// where the words do not fit.
pub fn parse_nodes(tokens: &Vec<String>, from: usize) -> (res: Option<Vec<NodeSlots>>)
    ensures
        match read_nodes(texts(tokens@), from as int) {
            Some(models) => res matches Some(nodes) && node_views(nodes@) == models,
            None => res is None,
        },
{
    let ghost words = texts(tokens@);
    let ghost whole = read_nodes(words, from as int);
    let mut nodes: Vec<NodeSlots> = Vec::new();
    let mut at: usize = from;
    proof {
        assert(node_views(nodes@) =~= Seq::<NodeModel>::empty());
        if let Some(models) = whole {
            assert(Seq::<NodeModel>::empty() + models =~= models);
        }
    }
    while at < tokens.len()
        invariant
            words == texts(tokens@),
            whole == read_nodes(words, from as int),
            whole == match read_nodes(words, at as int) {
                Some(rest) => Some(node_views(nodes@) + rest),
                None => None,
            },
        decreases tokens.len() - at,
    {
        let ghost front = node_views(nodes@);
        match parse_node(tokens, at) {
            Some((node, next)) => {
                if next <= at {
                    return None;
                }
                proof {
                    assert(node_views(nodes@.push(node)) =~= front + seq![node@]);
                    if let Some(rest) = read_nodes(words, next as int) {
                        assert(front + (seq![node@] + rest) =~= (front + seq![node@]) + rest);
                    }
                }
                nodes.push(node);
                at = next;
            },
            None => {
                return None;
            },
        }
    }
    proof {
        assert(node_views(nodes@) + Seq::<NodeModel>::empty() =~= node_views(nodes@));
    }
    Some(nodes)
}

/// The flags that a word stands for: `FORCE` or `NOFLAG`.
pub open spec fn read_flags(word: Seq<char>) -> Option<DBMapFlags> {
    if word == "FORCE"@ {
        Some(DBMapFlags { force: true })
    } else if word == "NOFLAG"@ {
        Some(DBMapFlags { force: false })
    } else {
        None
    }
}

/// Reads the flags that `word` stands for.
pub fn parse_flags(word: &String) -> (res: Option<DBMapFlags>)
    ensures
        res == read_flags(word@),
{
    if *word == String::from_str("FORCE") {
        Some(DBMapFlags { force: true })
    } else if *word == String::from_str("NOFLAG") {
        Some(DBMapFlags { force: false })
    } else {
        None
    }
}

/// The word of flags stands for them.
pub proof fn lemma_flags_read_back(flags: DBMapFlags)
    ensures
        read_flags(flags.arg()) == Some(flags),
{
    reveal_strlit("FORCE");
    reveal_strlit("NOFLAG");
    assert("FORCE"@.len() == 5);
    assert("NOFLAG"@.len() == 6);
}

/// The topology that the words from `pos` on spell: an epoch, the flags,
/// and the backends up to the end.
pub open spec fn read_host_map(tokens: Seq<Seq<char>>, pos: int) -> Option<
    (nat, DBMapFlags, Seq<NodeModel>),
> {
    if pos < 0 || pos + 1 >= tokens.len() {
        None
    } else {
        match (
            number_at(tokens, pos, u64::MAX as nat),
            read_flags(tokens[pos + 1]),
            read_nodes(tokens, pos + 2),
        ) {
            (Some(epoch), Some(flags), Some(nodes)) => Some((epoch, flags, nodes)),
            _ => None,
        }
    }
}

/// Reads the topology that the words from `from` on spell. `None` where
/// the words do not fit.
pub fn parse_host_map(tokens: &Vec<String>, from: usize) -> (res: Option<HostDBMap>)
    ensures
        match read_host_map(texts(tokens@), from as int) {
            Some((epoch, flags, nodes)) => res matches Some(map) && map.epoch() == epoch
                && map.flags() == flags && node_views(map.nodes()) == nodes,
            None => res is None,
        },
{
    if from >= tokens.len() || tokens.len() - from < 2 {
        return None;
    }
    let epoch = match parse_number(tokens, from) {
        Some(epoch) => epoch,
        None => {
            return None;
        },
    };
    let flags = match parse_flags(&tokens[from + 1]) {
        Some(flags) => flags,
        None => {
            return None;
        },
    };
    match parse_nodes(tokens, from + 2) {
        Some(nodes) => Some(HostDBMap::new(epoch, flags, nodes)),
        None => None,
    }
}

/// Whether the numbers of a tag fit the fields that hold them.
pub open spec fn tag_fits(tag: TagModel) -> bool {
    match tag {
        TagModel::NoTag => true,
        TagModel::Migrating(meta) => meta.epoch <= u64::MAX,
        TagModel::Importing(meta) => meta.epoch <= u64::MAX,
    }
}

/// Whether the numbers of the ranges fit the fields that hold them.
pub open spec fn ranges_fit(ranges: Seq<RangeModel>) -> bool {
    forall|i: int|
        0 <= i < ranges.len() ==> (#[trigger] ranges[i]).start <= usize::MAX && ranges[i].end
            <= usize::MAX && tag_fits(ranges[i].tag)
}

/// Whether the numbers of the backends fit the fields that hold them.
pub open spec fn nodes_fit(nodes: Seq<NodeModel>) -> bool {
    forall|i: int|
        0 <= i < nodes.len() ==> (#[trigger] nodes[i]).2.len() <= usize::MAX && ranges_fit(
            nodes[i].2,
        )
}

/// The decimal text of a number that fits is read back as the number.
pub proof fn lemma_number_at(tokens: Seq<Seq<char>>, pos: int, n: nat, max: nat)
    requires
        0 <= pos < tokens.len(),
        tokens[pos] == decimal_chars(n),
        n <= max,
    ensures
        number_at(tokens, pos, max) == Some(n),
{
    lemma_decimal_round_trip(n);
}

/// The words of a tag are read back as the tag.
pub proof fn lemma_read_tag(tokens: Seq<Seq<char>>, pos: int, tag: TagModel)
    requires
        0 <= pos,
        pos + tag_tokens(tag).len() <= tokens.len(),
        tokens.subrange(pos, pos + tag_tokens(tag).len()) == tag_tokens(tag),
        tag_fits(tag),
    ensures
        read_tag(tokens, pos) == (Read::Done { value: tag, end: pos + tag_tokens(tag).len() }),
{
    reveal_strlit("NONE");
    reveal_strlit("MIGRATING");
    reveal_strlit("IMPORTING");
    let words = tag_tokens(tag);
    assert forall|i: int| 0 <= i < words.len() implies tokens[pos + i] == words[i] by {
        assert(tokens.subrange(pos, pos + words.len())[i] == tokens[pos + i]);
    }
    assert(tokens[pos] == words[0]);
    assert("NONE"@.len() == 4);
    assert("MIGRATING"@.len() == 9);
    assert("IMPORTING"@.len() == 9);
    assert("MIGRATING"@[0] == 'M');
    assert("IMPORTING"@[0] == 'I');
    match tag {
        TagModel::NoTag => {},
        TagModel::Migrating(meta) => {
            assert(tokens[pos + 1] == words[1]);
            assert(tokens[pos + 2] == words[2]);
            assert(tokens[pos + 3] == words[3]);
            lemma_number_at(tokens, pos + 3, meta.epoch, u64::MAX as nat);
        },
        TagModel::Importing(meta) => {
            assert(tokens[pos + 1] == words[1]);
            assert(tokens[pos + 2] == words[2]);
            assert(tokens[pos + 3] == words[3]);
            lemma_number_at(tokens, pos + 3, meta.epoch, u64::MAX as nat);
        },
    }
}

/// The words of ranges are read back as the ranges, whatever follows.
pub proof fn lemma_read_ranges(tokens: Seq<Seq<char>>, pos: int, ranges: Seq<RangeModel>)
    requires
        0 <= pos,
        pos + ranges_tokens(ranges).len() <= tokens.len(),
        tokens.subrange(pos, pos + ranges_tokens(ranges).len()) == ranges_tokens(ranges),
        ranges_fit(ranges),
    ensures
        read_ranges(tokens, pos, ranges.len()) == (Read::Done {
            value: ranges,
            end: pos + ranges_tokens(ranges).len(),
        }),
    decreases ranges.len(),
{
    if ranges.len() == 0 {
        assert(ranges =~= Seq::<RangeModel>::empty());
    } else {
        let first = ranges[0];
        let head = range_tokens(first);
        let tail = ranges_tokens(ranges.skip(1));
        let whole = ranges_tokens(ranges);
        let tag = tag_tokens(first.tag);
        assert(whole == head + tail);
        assert forall|i: int| 0 <= i < whole.len() implies tokens[pos + i] == whole[i] by {
            assert(tokens.subrange(pos, pos + whole.len())[i] == tokens[pos + i]);
        }
        assert(tokens[pos] == whole[0]);
        assert(tokens[pos + 1] == whole[1]);
        assert(first.start <= usize::MAX && first.end <= usize::MAX && tag_fits(first.tag));
        lemma_number_at(tokens, pos, first.start, usize::MAX as nat);
        lemma_number_at(tokens, pos + 1, first.end, usize::MAX as nat);
        assert(tokens.subrange(pos + 2, pos + 2 + tag.len()) =~= tag) by {
            assert forall|i: int| 0 <= i < tag.len() implies tokens[pos + 2 + i] == tag[i] by {
                assert(whole[2 + i] == tag[i]);
            }
        }
        lemma_read_tag(tokens, pos + 2, first.tag);
        let mid = pos + head.len();
        assert(tokens.subrange(mid, mid + tail.len()) =~= tail) by {
            assert forall|i: int| 0 <= i < tail.len() implies tokens[mid + i] == tail[i] by {
                assert(whole[head.len() + i] == tail[i]);
            }
        }
        assert forall|i: int| 0 <= i < ranges.skip(1).len() implies (
        #[trigger] ranges.skip(1)[i]).start <= usize::MAX && ranges.skip(1)[i].end <= usize::MAX
            && tag_fits(ranges.skip(1)[i].tag) by {
            assert(ranges.skip(1)[i] == ranges[i + 1]);
        }
        lemma_read_ranges(tokens, mid, ranges.skip(1));
        assert(seq![first] + ranges.skip(1) =~= ranges);
    }
}

/// The words of backends, up to the end, are read back as the backends.
pub proof fn lemma_read_nodes(tokens: Seq<Seq<char>>, pos: int, nodes: Seq<NodeModel>)
    requires
        0 <= pos,
        pos + nodes_tokens(nodes).len() == tokens.len(),
        tokens.subrange(pos, tokens.len() as int) == nodes_tokens(nodes),
        nodes_fit(nodes),
    ensures
        read_nodes(tokens, pos) == Some(nodes),
    decreases nodes.len(),
{
    if nodes.len() == 0 {
        assert(nodes =~= Seq::<NodeModel>::empty());
    } else {
        let first = nodes[0];
        let head = node_tokens(first);
        let tail = nodes_tokens(nodes.skip(1));
        let whole = nodes_tokens(nodes);
        let body = ranges_tokens(first.2);
        assert(whole == head + tail);
        assert forall|i: int| 0 <= i < whole.len() implies tokens[pos + i] == whole[i] by {
            assert(tokens.subrange(pos, tokens.len() as int)[i] == tokens[pos + i]);
        }
        assert(tokens[pos] == whole[0]);
        assert(tokens[pos + 1] == whole[1]);
        assert(tokens[pos + 2] == whole[2]);
        assert(first.2.len() <= usize::MAX && ranges_fit(first.2));
        lemma_number_at(tokens, pos + 2, first.2.len(), usize::MAX as nat);
        assert(tokens.subrange(pos + 3, pos + 3 + body.len()) =~= body) by {
            assert forall|i: int| 0 <= i < body.len() implies tokens[pos + 3 + i] == body[i] by {
                assert(whole[3 + i] == body[i]);
            }
        }
        lemma_read_ranges(tokens, pos + 3, first.2);
        let mid = pos + head.len();
        assert(tokens.subrange(mid, tokens.len() as int) =~= tail) by {
            assert forall|i: int| 0 <= i < tail.len() implies tokens[mid + i] == tail[i] by {
                assert(whole[head.len() + i] == tail[i]);
            }
        }
        assert forall|i: int| 0 <= i < nodes.skip(1).len() implies (
        #[trigger] nodes.skip(1)[i]).2.len() <= usize::MAX && ranges_fit(nodes.skip(1)[i].2) by {
            assert(nodes.skip(1)[i] == nodes[i + 1]);
        }
        lemma_read_nodes(tokens, mid, nodes.skip(1));
        assert(seq![first] + nodes.skip(1) =~= nodes);
    }
}

/// What is held in the fields of backends fits them.
pub proof fn lemma_views_fit(nodes: Seq<NodeSlots>)
    ensures
        nodes_fit(node_views(nodes)),
{
    assert forall|i: int| 0 <= i < nodes.len() implies (#[trigger] node_views(nodes)[i]).2.len()
        <= usize::MAX && ranges_fit(node_views(nodes)[i].2) by {
        let ranges = nodes[i].slot_ranges@;
        assert(ranges.len() == nodes[i].slot_ranges.len());
        assert(node_views(nodes)[i].2 == range_views(ranges));
        assert forall|j: int| 0 <= j < ranges.len() implies (#[trigger] range_views(
            ranges,
        )[j]).start <= usize::MAX && range_views(ranges)[j].end <= usize::MAX && tag_fits(
            range_views(ranges)[j].tag,
        ) by {
            assert(range_views(ranges)[j] == ranges[j]@);
        }
    }
}

/// Reading inverts writing: the words that stand for backends, behind any
/// words, are read back as those backends.
pub proof fn law_read_inverts_tokens(front: Seq<Seq<char>>, nodes: Seq<NodeModel>)
    requires
        nodes_fit(nodes),
    ensures
        read_nodes(front + nodes_tokens(nodes), front.len() as int) == Some(nodes),
{
    let tokens = front + nodes_tokens(nodes);
    assert(tokens.subrange(front.len() as int, tokens.len() as int) =~= nodes_tokens(nodes));
    lemma_read_nodes(tokens, front.len() as int, nodes);
}

/// What a host holds in the fields of its backends fits them.
pub proof fn lemma_live_nodes_fit(nodes: Seq<Node>, upto: int)
    requires
        upto <= nodes.len(),
    ensures
        nodes_fit(live_nodes(nodes, upto)),
    decreases upto,
{
    if upto > 0 {
        lemma_live_nodes_fit(nodes, upto - 1);
        let before = live_nodes(nodes, upto - 1);
        let node = nodes[upto - 1];
        node.lemma_slots_fit();
        let ranges = range_views(node.slots());
        assert forall|j: int| 0 <= j < ranges.len() implies (#[trigger] ranges[j]).start
            <= usize::MAX && ranges[j].end <= usize::MAX && tag_fits(ranges[j].tag) by {
            assert(ranges[j] == node.slots()[j]@);
        }
        assert forall|i: int| 0 <= i < live_nodes(nodes, upto).len() implies (
        #[trigger] live_nodes(nodes, upto)[i]).2.len() <= usize::MAX && ranges_fit(
            live_nodes(nodes, upto)[i].2,
        ) by {
            if i < before.len() {
                assert(live_nodes(nodes, upto)[i] == before[i]);
            }
        }
    }
}

/// A topology is read back as it was written: the epoch, the flags and the
/// words of the backends that a topology holds spell that topology.
pub proof fn law_topology_is_read_back(epoch: u64, flags: DBMapFlags, nodes: Seq<NodeSlots>)
    ensures
        read_host_map(
            seq![decimal_chars(epoch as nat), flags.arg()] + nodes_tokens(node_views(nodes)),
            0,
        ) == Some((epoch as nat, flags, node_views(nodes))),
{
    let front = seq![decimal_chars(epoch as nat), flags.arg()];
    let tokens = front + nodes_tokens(node_views(nodes));
    lemma_views_fit(nodes);
    law_read_inverts_tokens(front, node_views(nodes));
    lemma_flags_read_back(flags);
    lemma_number_at(tokens, 0, epoch as nat, u64::MAX as nat);
    assert(tokens[1] == flags.arg());
}

} // verus!
