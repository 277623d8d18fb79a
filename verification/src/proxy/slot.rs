//! Slots, slot ranges, and the map from a slot to the backend that owns it.

use crate::common::search::{index_of, position_of};
use vstd::prelude::*;
use vstd::slice::slice_subrange;

verus! {

/// The number of slots. A slot is a number below it.
pub const SLOT_NUM: usize = 16384;

pub const BRACE_OPEN: u8 = 123;

pub const BRACE_CLOSE: u8 = 125;

/// The two ends of a migration and the epoch in which it was set up.
#[derive(Debug, PartialEq, Eq)]
pub struct MigrationMeta {
    pub epoch: u64,
    pub src_node_address: String,
    pub dst_node_address: String,
}

/// What a slot range is doing beside being served.
#[derive(Debug, PartialEq, Eq)]
pub enum SlotRangeTag {
    /// The range is leaving this backend.
    Migrating(MigrationMeta),
    /// The range is arriving at this backend.
    Importing(MigrationMeta),
    /// The range is served and nothing else.
    NoTag,
}

/// The slots from `start` up to, and without, `end`.
#[derive(Debug, PartialEq, Eq)]
pub struct SlotRange {
    pub start: usize,
    pub end: usize,
    pub tag: SlotRangeTag,
}

impl Clone for MigrationMeta {
    fn clone(&self) -> (copy: MigrationMeta)
        ensures
            copy == *self,
    {
        MigrationMeta {
            epoch: self.epoch,
            src_node_address: self.src_node_address.clone(),
            dst_node_address: self.dst_node_address.clone(),
        }
    }
}

impl Clone for SlotRangeTag {
    fn clone(&self) -> (copy: SlotRangeTag)
        ensures
            copy == *self,
    {
        match self {
            SlotRangeTag::Migrating(meta) => SlotRangeTag::Migrating(meta.clone()),
            SlotRangeTag::Importing(meta) => SlotRangeTag::Importing(meta.clone()),
            SlotRangeTag::NoTag => SlotRangeTag::NoTag,
        }
    }
}

impl Clone for SlotRange {
    fn clone(&self) -> (copy: SlotRange)
        ensures
            copy == *self,
    {
        SlotRange { start: self.start, end: self.end, tag: self.tag.clone() }
    }
}

/// The model of a migration's ends and epoch.
pub struct MetaModel {
    pub epoch: nat,
    pub src: Seq<char>,
    pub dst: Seq<char>,
}

/// The model of a tag.
pub enum TagModel {
    Migrating(MetaModel),
    Importing(MetaModel),
    NoTag,
}

/// The model of a slot range.
pub struct RangeModel {
    pub start: nat,
    pub end: nat,
    pub tag: TagModel,
}

impl View for MigrationMeta {
    type V = MetaModel;

    open spec fn view(&self) -> MetaModel {
        MetaModel {
            epoch: self.epoch as nat,
            src: self.src_node_address@,
            dst: self.dst_node_address@,
        }
    }
}

impl View for SlotRangeTag {
    type V = TagModel;

    open spec fn view(&self) -> TagModel {
        match self {
            SlotRangeTag::Migrating(meta) => TagModel::Migrating(meta@),
            SlotRangeTag::Importing(meta) => TagModel::Importing(meta@),
            SlotRangeTag::NoTag => TagModel::NoTag,
        }
    }
}

impl View for SlotRange {
    type V = RangeModel;

    open spec fn view(&self) -> RangeModel {
        RangeModel { start: self.start as nat, end: self.end as nat, tag: self.tag@ }
    }
}

/// The models of `ranges`, in order.
pub open spec fn range_views(ranges: Seq<SlotRange>) -> Seq<RangeModel> {
    Seq::new(ranges.len(), |i: int| ranges[i]@)
}

/// A copy of `ranges`.
pub fn copy_ranges(ranges: &Vec<SlotRange>) -> (copy: Vec<SlotRange>)
    ensures
        copy@ == ranges@,
{
    let mut copy: Vec<SlotRange> = Vec::new();
    let mut i: usize = 0;
    while i < ranges.len()
        invariant
            i <= ranges.len(),
            copy@ == ranges@.take(i as int),
        decreases ranges.len() - i,
    {
        copy.push(ranges[i].clone());
        i += 1;
    }
    copy
}

/// The part of a key that is hashed: what stands between the first `{` and
/// the first `}` behind it where that is not empty, else the whole key.
pub open spec fn hash_tag(key: Seq<u8>) -> Seq<u8> {
    let open = position_of(key, BRACE_OPEN, 0);
    let close = position_of(key, BRACE_CLOSE, open + 1);
    if open < key.len() && close < key.len() && close > open + 1 {
        key.subrange(open + 1, close)
    } else {
        key
    }
}

/// The CRC-16/XMODEM checksum of `bytes`.
pub uninterp spec fn xmodem_checksum(bytes: Seq<u8>) -> u16;

/// The slot of a key.
pub open spec fn key_slot(key: Seq<u8>) -> int {
    xmodem_checksum(hash_tag(key)) as int % SLOT_NUM as int
}

/// Calls `crc16::State::<crc16::XMODEM>::calculate`, which folds the bytes
/// through a fixed table and so is a function of the bytes alone. The
/// contract names its result and claims nothing else of it.
#[verifier::external_body]
fn crc16_xmodem(bytes: &[u8]) -> (crc: u16)
    ensures
        crc == xmodem_checksum(bytes@),
{
    crc16::State::<crc16::XMODEM>::calculate(bytes)
}

/// The part of `key` that is hashed.
pub fn hash_tag_of<'a>(key: &'a [u8]) -> (part: &'a [u8])
    ensures
        part@ == hash_tag(key@),
{
    let open = index_of(key, BRACE_OPEN, 0);
    if open >= key.len() {
        return key;
    }
    let close = index_of(key, BRACE_CLOSE, open + 1);
    if close < key.len() && close > open + 1 {
        slice_subrange(key, open + 1, close)
    } else {
        key
    }
}

/// The slot of `key`.
pub fn slot_of_key(key: &[u8]) -> (slot: usize)
    ensures
        slot == key_slot(key@),
        slot < SLOT_NUM,
{
    crc16_xmodem(hash_tag_of(key)) as usize % SLOT_NUM
}

/// Whether `slot` is one of the first `upto` entries of `slots`.
pub open spec fn listed(slots: Seq<usize>, upto: int, slot: int) -> bool {
    exists|j: int| 0 <= j < upto && j < slots.len() && #[trigger] slots[j] == slot
}

/// The address of the last of `entries` that lists `slot`, for a slot below
/// `SLOT_NUM`: where two entries list a slot, the later one has it.
pub open spec fn last_owner(entries: Seq<(String, Vec<usize>)>, slot: int) -> Option<Seq<char>>
    decreases entries.len(),
{
    if entries.len() == 0 || slot < 0 || slot >= SLOT_NUM {
        None
    } else if listed(entries.last().1@, entries.last().1@.len() as int, slot) {
        Some(entries.last().0@)
    } else {
        last_owner(entries.drop_last(), slot)
    }
}

/// The owner of `slot` that the flat array and the address list give.
pub open spec fn owner_in(slot_arr: Seq<Option<usize>>, addrs: Seq<String>, slot: int) -> Option<
    Seq<char>,
> {
    if 0 <= slot < slot_arr.len() {
        match slot_arr[slot] {
            Some(index) => if index < addrs.len() {
                Some(addrs[index as int]@)
            } else {
                None
            },
            None => None,
        }
    } else {
        None
    }
}

/// The view of an address that may be missing.
pub open spec fn address_model(address: Option<String>) -> Option<Seq<char>> {
    match address {
        Some(a) => Some(a@),
        None => None,
    }
}

/// The slot table: for each slot the index of its backend, and the addresses
/// of the backends.
pub struct SlotMapData {
    slot_arr: Vec<Option<usize>>,
    addrs: Vec<String>,
}

impl SlotMapData {
    /// The table has one entry per slot, and each entry names a backend.
    #[verifier::type_invariant]
    pub closed spec fn wf(&self) -> bool {
        &&& self.slot_arr.len() == SLOT_NUM
        &&& forall|slot: int|
            0 <= slot < SLOT_NUM ==> (#[trigger] self.slot_arr[slot] matches Some(index)
                ==> index < self.addrs.len())
    }

    /// The address of the backend that owns `slot`, if one does.
    pub closed spec fn owner(&self, slot: int) -> Option<Seq<char>> {
        owner_in(self.slot_arr@, self.addrs@, slot)
    }

    /// Builds the table from the slots that each backend lists. A slot that
    /// two backends list goes to the later one; numbers from `SLOT_NUM` on
    /// are no slots and are passed over.
    pub fn new(slot_map: Vec<(String, Vec<usize>)>) -> (data: SlotMapData)
        ensures
            forall|slot: int| data.owner(slot) == last_owner(slot_map@, slot),
    {
        let mut slot_arr: Vec<Option<usize>> = Vec::with_capacity(SLOT_NUM);
        let mut addrs: Vec<String> = Vec::with_capacity(slot_map.len());
        let mut n: usize = 0;
        while n < SLOT_NUM
            invariant
                n <= SLOT_NUM,
                slot_arr.len() == n,
                forall|slot: int| 0 <= slot < n ==> slot_arr[slot] is None,
            decreases SLOT_NUM - n,
        {
            slot_arr.push(None);
            n += 1;
        }
        let mut i: usize = 0;
        while i < slot_map.len()
            invariant
                i <= slot_map.len(),
                addrs.len() == i,
                slot_arr.len() == SLOT_NUM,
                forall|slot: int|
                    0 <= slot < SLOT_NUM ==> (#[trigger] slot_arr[slot] matches Some(index)
                        ==> index < i),
                forall|slot: int|
                    0 <= slot < SLOT_NUM ==> owner_in(slot_arr@, addrs@, slot) == last_owner(
                        slot_map@.take(i as int),
                        slot,
                    ),
            decreases slot_map.len() - i,
        {
            let ghost before = slot_map@.take(i as int);
            let ghost entries = slot_map@.take(i + 1);
            let ghost old_arr = slot_arr@;
            let ghost old_addrs = addrs@;
            addrs.push(slot_map[i].0.clone());
            let slots = &slot_map[i].1;
            proof {
                assert(entries.drop_last() =~= before);
                assert(entries.last() == slot_map[i as int]);
                assert forall|slot: int| 0 <= slot < SLOT_NUM implies owner_in(
                    slot_arr@,
                    addrs@,
                    slot,
                ) == owner_in(old_arr, old_addrs, slot) by {
                    if let Some(index) = slot_arr[slot] {
                        assert(addrs@[index as int] == old_addrs[index as int]);
                    }
                }
                assert forall|slot: int| 0 <= slot < SLOT_NUM implies owner_in(
                    slot_arr@,
                    addrs@,
                    slot,
                ) == if listed(slots@, 0, slot) {
                    Some(slot_map[i as int].0@)
                } else {
                    last_owner(before, slot)
                } by {
                    assert(owner_in(old_arr, old_addrs, slot) == last_owner(before, slot));
                }
            }
            let mut k: usize = 0;
            while k < slots.len()
                invariant
                    k <= slots.len(),
                    i < slot_map.len(),
                    slots == &slot_map[i as int].1,
                    addrs.len() == i + 1,
                    addrs[i as int]@ == slot_map[i as int].0@,
                    slot_arr.len() == SLOT_NUM,
                    forall|slot: int|
                        0 <= slot < SLOT_NUM ==> (#[trigger] slot_arr[slot] matches Some(index)
                            ==> index <= i),
                    forall|slot: int|
                        0 <= slot < SLOT_NUM ==> owner_in(slot_arr@, addrs@, slot) == if listed(
                            slots@,
                            k as int,
                            slot,
                        ) {
                            Some(slot_map[i as int].0@)
                        } else {
                            last_owner(before, slot)
                        },
                decreases slots.len() - k,
            {
                let s = slots[k];
                let ghost arr = slot_arr@;
                if s < SLOT_NUM {
                    slot_arr.set(s, Some(i));
                }
                proof {
                    assert forall|slot: int| 0 <= slot < SLOT_NUM implies owner_in(
                        slot_arr@,
                        addrs@,
                        slot,
                    ) == if listed(slots@, k + 1, slot) {
                        Some(slot_map[i as int].0@)
                    } else {
                        last_owner(before, slot)
                    } by {
                        assert(owner_in(arr, addrs@, slot) == if listed(slots@, k as int, slot) {
                            Some(slot_map[i as int].0@)
                        } else {
                            last_owner(before, slot)
                        });
                        if slot == s {
                            assert(slots@[k as int] == slot);
                        } else {
                            assert(slot_arr@[slot] == arr[slot]);
                            if listed(slots@, k as int, slot) {
                                let j = choose|j: int|
                                    0 <= j < k && j < slots@.len() && #[trigger] slots@[j] == slot;
                                assert(0 <= j < k + 1 && slots@[j] == slot);
                            }
                            if listed(slots@, k + 1, slot) {
                                let j = choose|j: int|
                                    0 <= j < k + 1 && j < slots@.len() && #[trigger] slots@[j]
                                        == slot;
                                assert(j < k);
                            }
                        }
                    }
                }
                k += 1;
            }
            i += 1;
        }
        let data = SlotMapData { slot_arr, addrs };
        proof {
            assert(slot_map@.take(i as int) =~= slot_map@);
            assert forall|slot: int| data.owner(slot) == last_owner(slot_map@, slot) by {
                if !(0 <= slot < SLOT_NUM) {
                    lemma_no_owner_outside(slot_map@, slot);
                }
            }
        }
        data
    }

    /// A copy of the table.
    pub fn duplicate(&self) -> (copy: SlotMapData)
        ensures
            forall|slot: int| copy.owner(slot) == self.owner(slot),
    {
        proof {
            use_type_invariant(self);
        }
        let mut slot_arr: Vec<Option<usize>> = Vec::with_capacity(SLOT_NUM);
        let mut i: usize = 0;
        while i < self.slot_arr.len()
            invariant
                i <= self.slot_arr.len(),
                slot_arr@ == self.slot_arr@.take(i as int),
            decreases self.slot_arr.len() - i,
        {
            slot_arr.push(self.slot_arr[i]);
            i += 1;
        }
        assert(self.slot_arr@.take(i as int) =~= self.slot_arr@);
        let mut addrs: Vec<String> = Vec::with_capacity(self.addrs.len());
        let mut j: usize = 0;
        while j < self.addrs.len()
            invariant
                j <= self.addrs.len(),
                addrs@ == self.addrs@.take(j as int),
            decreases self.addrs.len() - j,
        {
            addrs.push(self.addrs[j].clone());
            j += 1;
        }
        assert(self.addrs@.take(j as int) =~= self.addrs@);
        SlotMapData { slot_arr, addrs }
    }

    /// The address of the backend that owns `slot`; `None` where no backend
    /// does, and for any number that is no slot.
    pub fn get(&self, slot: usize) -> (address: Option<String>)
        ensures
            address_model(address) == self.owner(slot as int),
            slot >= SLOT_NUM ==> address is None,
    {
        proof {
            use_type_invariant(self);
        }
        if slot >= self.slot_arr.len() {
            return None;
        }
        match self.slot_arr[slot] {
            Some(index) => Some(self.addrs[index].clone()),
            None => None,
        }
    }
}

/// No backend owns a number that is no slot.
pub proof fn lemma_no_owner_outside(entries: Seq<(String, Vec<usize>)>, slot: int)
    requires
        slot < 0 || slot >= SLOT_NUM,
    ensures
        last_owner(entries, slot) is None,
{
}

/// Whether `range` holds `slot`.
pub open spec fn range_covers(range: SlotRange, slot: int) -> bool {
    range.start <= slot < range.end
}

/// Whether one of the first `upto` of `ranges` holds `slot`.
pub open spec fn covered(ranges: Seq<SlotRange>, upto: int, slot: int) -> bool {
    exists|j: int| 0 <= j < upto && j < ranges.len() && range_covers(#[trigger] ranges[j], slot)
}

/// The address of the last of `entries` with a range that holds `slot`, for
/// a slot below `SLOT_NUM`: where ranges overlap, the later entry has the
/// slot.
pub open spec fn last_range_owner(entries: Seq<(String, Vec<SlotRange>)>, slot: int) -> Option<
    Seq<char>,
>
    decreases entries.len(),
{
    if entries.len() == 0 || slot < 0 || slot >= SLOT_NUM {
        None
    } else if covered(entries.last().1@, entries.last().1@.len() as int, slot) {
        Some(entries.last().0@)
    } else {
        last_range_owner(entries.drop_last(), slot)
    }
}

/// Whether `slots` lists the slots that `ranges` hold, under the same
/// address.
pub open spec fn lists_ranges(slots: (String, Vec<usize>), ranges: (String, Vec<SlotRange>)) -> bool {
    &&& slots.0@ == ranges.0@
    &&& forall|slot: int|
        0 <= slot < SLOT_NUM ==> (listed(slots.1@, slots.1@.len() as int, slot) <==> covered(
            ranges.1@,
            ranges.1@.len() as int,
            slot,
        ))
}

/// Entries that list the slots of ranges give each slot the owner that the
/// ranges give it.
pub proof fn lemma_listed_ranges(
    lists: Seq<(String, Vec<usize>)>,
    entries: Seq<(String, Vec<SlotRange>)>,
    slot: int,
)
    requires
        lists.len() == entries.len(),
        forall|i: int| 0 <= i < lists.len() ==> lists_ranges(#[trigger] lists[i], entries[i]),
    ensures
        last_owner(lists, slot) == last_range_owner(entries, slot),
    decreases lists.len(),
{
    if lists.len() > 0 && 0 <= slot < SLOT_NUM {
        assert(lists_ranges(lists[lists.len() - 1], entries[lists.len() - 1]));
        assert forall|i: int| 0 <= i < lists.drop_last().len() implies lists_ranges(
            #[trigger] lists.drop_last()[i],
            entries.drop_last()[i],
        ) by {
            assert(lists_ranges(lists[i], entries[i]));
        }
        lemma_listed_ranges(lists.drop_last(), entries.drop_last(), slot);
    }
}

/// The slots below `SLOT_NUM` that `ranges` hold, range by range.
pub fn slots_of_ranges(ranges: &Vec<SlotRange>) -> (slots: Vec<usize>)
    ensures
        forall|slot: int|
            0 <= slot < SLOT_NUM ==> (listed(slots@, slots@.len() as int, slot) <==> covered(
                ranges@,
                ranges@.len() as int,
                slot,
            )),
{
    let mut slots: Vec<usize> = Vec::new();
    let mut r: usize = 0;
    while r < ranges.len()
        invariant
            r <= ranges.len(),
            forall|slot: int|
                0 <= slot < SLOT_NUM ==> (listed(slots@, slots@.len() as int, slot) <==> covered(
                    ranges@,
                    r as int,
                    slot,
                )),
        decreases ranges.len() - r,
    {
        let start = ranges[r].start;
        let end = if ranges[r].end < SLOT_NUM {
            ranges[r].end
        } else {
            SLOT_NUM
        };
        let mut slot: usize = start;
        while slot < end
            invariant
                r < ranges.len(),
                start == ranges[r as int].start,
                end <= SLOT_NUM,
                end <= ranges[r as int].end,
                end == ranges[r as int].end || end == SLOT_NUM,
                start <= slot,
                slot <= end || slot == start,
                forall|s: int|
                    0 <= s < SLOT_NUM ==> (listed(slots@, slots@.len() as int, s) <==> (covered(
                        ranges@,
                        r as int,
                        s,
                    ) || start <= s < slot)),
            decreases end - slot,
        {
            let ghost before = slots@;
            let ghost at = slot as int;
            slots.push(slot);
            slot += 1;
            proof {
                assert forall|s: int| 0 <= s < SLOT_NUM implies (listed(
                    slots@,
                    slots@.len() as int,
                    s,
                ) <==> (covered(ranges@, r as int, s) || start <= s < slot)) by {
                    assert(listed(before, before.len() as int, s) <==> (covered(
                        ranges@,
                        r as int,
                        s,
                    ) || start <= s < at));
                    if listed(before, before.len() as int, s) {
                        let j = choose|j: int|
                            0 <= j < before.len() && j < before.len() && #[trigger] before[j] == s;
                        assert(slots@[j] == s);
                    }
                    if s == at {
                        assert(slots@[before.len() as int] == s);
                    }
                    if listed(slots@, slots@.len() as int, s) && s != at {
                        let j = choose|j: int|
                            0 <= j < slots@.len() && j < slots@.len() && #[trigger] slots@[j] == s;
                        assert(before[j] == s);
                    }
                }
            }
        }
        proof {
            assert forall|s: int| 0 <= s < SLOT_NUM implies (listed(slots@, slots@.len() as int, s)
                <==> covered(ranges@, r + 1, s)) by {
                if covered(ranges@, r as int, s) {
                    let j = choose|j: int|
                        0 <= j < r && j < ranges@.len() && range_covers(#[trigger] ranges@[j], s);
                    assert(range_covers(ranges@[j], s));
                }
                if start <= s < slot {
                    assert(range_covers(ranges@[r as int], s));
                }
                if covered(ranges@, r + 1, s) {
                    let j = choose|j: int|
                        0 <= j < r + 1 && j < ranges@.len() && range_covers(
                            #[trigger] ranges@[j],
                            s,
                        );
                    if j < r {
                        assert(range_covers(ranges@[j], s));
                    }
                }
            }
        }
        r += 1;
    }
    slots
}

/// Whether one of `ranges` holds `slot` and has no tag: the range is served
/// and not under migration.
pub open spec fn plainly_covered(ranges: Seq<SlotRange>, slot: int) -> bool {
    exists|j: int|
        0 <= j < ranges.len() && (#[trigger] ranges[j]).tag is NoTag && range_covers(
            ranges[j],
            slot,
        )
}

/// The ranges of `ranges` that have no tag.
pub fn plain_ranges(ranges: &Vec<SlotRange>) -> (plain: Vec<SlotRange>)
    ensures
        forall|slot: int|
            covered(plain@, plain@.len() as int, slot) <==> plainly_covered(ranges@, slot),
        forall|j: int| 0 <= j < plain.len() ==> (#[trigger] plain[j]).tag is NoTag,
{
    let mut plain: Vec<SlotRange> = Vec::new();
    let mut i: usize = 0;
    while i < ranges.len()
        invariant
            i <= ranges.len(),
            forall|slot: int|
                covered(plain@, plain@.len() as int, slot) <==> plainly_covered(
                    ranges@.take(i as int),
                    slot,
                ),
            forall|j: int| 0 <= j < plain.len() ==> (#[trigger] plain[j]).tag is NoTag,
        decreases ranges.len() - i,
    {
        let ghost before = plain@;
        let ghost seen = ranges@.take(i as int);
        let ghost next = ranges@.take(i + 1);
        let keep = match ranges[i].tag {
            SlotRangeTag::NoTag => true,
            _ => false,
        };
        if keep {
            plain.push(ranges[i].clone());
        }
        proof {
            assert forall|slot: int|
                covered(plain@, plain@.len() as int, slot) <==> plainly_covered(next, slot) by {
                assert(covered(before, before.len() as int, slot) <==> plainly_covered(seen, slot));
                if covered(before, before.len() as int, slot) {
                    let j = choose|j: int|
                        0 <= j < before.len() && j < before.len() && range_covers(
                            #[trigger] before[j],
                            slot,
                        );
                    assert(range_covers(plain@[j], slot));
                }
                if plainly_covered(seen, slot) {
                    let j = choose|j: int|
                        0 <= j < seen.len() && (#[trigger] seen[j]).tag is NoTag && range_covers(
                            seen[j],
                            slot,
                        );
                    assert(next[j].tag is NoTag && range_covers(next[j], slot));
                }
                if keep && range_covers(ranges[i as int], slot) {
                    assert(range_covers(plain@[before.len() as int], slot));
                    assert(next[i as int].tag is NoTag && range_covers(next[i as int], slot));
                }
                if covered(plain@, plain@.len() as int, slot) {
                    let j = choose|j: int|
                        0 <= j < plain@.len() && j < plain@.len() && range_covers(
                            #[trigger] plain@[j],
                            slot,
                        );
                    if j < before.len() {
                        assert(range_covers(before[j], slot));
                    }
                }
                if plainly_covered(next, slot) {
                    let j = choose|j: int|
                        0 <= j < next.len() && (#[trigger] next[j]).tag is NoTag && range_covers(
                            next[j],
                            slot,
                        );
                    if j < i {
                        assert(seen[j].tag is NoTag && range_covers(seen[j], slot));
                    }
                }
            }
        }
        i += 1;
    }
    assert(ranges@.take(i as int) =~= ranges@);
    plain
}

/// The map from a slot to the address of the backend that owns it.
pub struct SlotMap {
    data: SlotMapData,
}

impl SlotMap {
    /// The address of the backend that owns `slot`, if one does.
    pub closed spec fn owner(&self, slot: int) -> Option<Seq<char>> {
        self.data.owner(slot)
    }

    /// Whether the backend at `address` owns `slot`.
    pub open spec fn owns(&self, address: Seq<char>, slot: int) -> bool {
        self.owner(slot) == Some(address)
    }

    /// Builds the map from the slots that each backend lists. A slot that two
    /// backends list goes to the later one.
    pub fn new(slot_map: Vec<(String, Vec<usize>)>) -> (map: SlotMap)
        ensures
            forall|slot: int| map.owner(slot) == last_owner(slot_map@, slot),
    {
        SlotMap { data: SlotMapData::new(slot_map) }
    }

    /// Builds the map from the ranges that each backend serves. A range ends
    /// at `SLOT_NUM` at the latest; where ranges overlap, the later backend
    /// has the slot.
    pub fn from_ranges(slot_map: Vec<(String, Vec<SlotRange>)>) -> (map: SlotMap)
        ensures
            forall|slot: int| map.owner(slot) == last_range_owner(slot_map@, slot),
    {
        let mut lists: Vec<(String, Vec<usize>)> = Vec::new();
        let mut i: usize = 0;
        while i < slot_map.len()
            invariant
                i <= slot_map.len(),
                lists.len() == i,
                forall|j: int| 0 <= j < i ==> lists_ranges(#[trigger] lists[j], slot_map[j]),
            decreases slot_map.len() - i,
        {
            let slots = slots_of_ranges(&slot_map[i].1);
            lists.push((slot_map[i].0.clone(), slots));
            i += 1;
        }
        let map = Self::new(lists);
        proof {
            assert forall|slot: int| map.owner(slot) == last_range_owner(slot_map@, slot) by {
                lemma_listed_ranges(lists@, slot_map@, slot);
            }
        }
        map
    }

    /// A copy of the map.
    pub fn duplicate(&self) -> (copy: SlotMap)
        ensures
            forall|slot: int| copy.owner(slot) == self.owner(slot),
    {
        SlotMap { data: self.data.duplicate() }
    }

    /// The slot of `key`: the checksum of its hashed part, reduced to a slot.
    pub fn get_slot(&self, key: &[u8]) -> (slot: usize)
        ensures
            slot == key_slot(key@),
            slot < SLOT_NUM,
    {
        slot_of_key(key)
    }

    /// The address of the backend that owns the slot of `key`.
    pub fn get_by_key(&self, key: &[u8]) -> (address: Option<String>)
        ensures
            address_model(address) == self.owner(key_slot(key@)),
    {
        let slot = self.get_slot(key);
        self.get(slot)
    }

    /// The address of the backend that owns `slot`; `None` where no backend
    /// does, and for any number that is no slot.
    pub fn get(&self, slot: usize) -> (address: Option<String>)
        ensures
            address_model(address) == self.owner(slot as int),
            slot >= SLOT_NUM ==> address is None,
    {
        self.data.get(slot)
    }
}

/// A slot has at most one owner: two backends that own the same slot of a
/// map are the same backend.
pub proof fn law_slot_has_one_owner(map: SlotMap, slot: int, first: Seq<char>, second: Seq<char>)
    requires
        map.owns(first, slot),
        map.owns(second, slot),
    ensures
        first == second,
{
}

/// A map built from ranges gives a slot an owner exactly where a range holds
/// it, and then the set of its owners has one element.
pub proof fn law_covered_slot_has_owner(
    entries: Seq<(String, Vec<SlotRange>)>,
    map: SlotMap,
    slot: int,
)
    requires
        0 <= slot < SLOT_NUM,
        forall|s: int| map.owner(s) == last_range_owner(entries, s),
    ensures
        map.owner(slot) is Some <==> exists|i: int|
            0 <= i < entries.len() && covered(
                (#[trigger] entries[i]).1@,
                entries[i].1@.len() as int,
                slot,
            ),
        map.owner(slot) is Some ==> Set::new(|address: Seq<char>| map.owns(address, slot))
            == set![map.owner(slot)->0],
{
    lemma_range_owner_exists(entries, slot);
    if map.owner(slot) is Some {
        assert(Set::new(|address: Seq<char>| map.owns(address, slot)) =~= set![
            map.owner(slot)->0,
        ]);
    }
}

/// Ranges give a slot an owner exactly where one of them holds it.
pub proof fn lemma_range_owner_exists(entries: Seq<(String, Vec<SlotRange>)>, slot: int)
    requires
        0 <= slot < SLOT_NUM,
    ensures
        last_range_owner(entries, slot) is Some <==> exists|i: int|
            0 <= i < entries.len() && covered(
                (#[trigger] entries[i]).1@,
                entries[i].1@.len() as int,
                slot,
            ),
    decreases entries.len(),
{
    if entries.len() > 0 {
        let last = entries.len() - 1;
        lemma_range_owner_exists(entries.drop_last(), slot);
        if covered(entries.last().1@, entries.last().1@.len() as int, slot) {
            assert(covered(entries[last].1@, entries[last].1@.len() as int, slot));
        } else if last_range_owner(entries.drop_last(), slot) is Some {
            let i = choose|i: int|
                0 <= i < entries.drop_last().len() && covered(
                    (#[trigger] entries.drop_last()[i]).1@,
                    entries.drop_last()[i].1@.len() as int,
                    slot,
                );
            assert(covered(entries[i].1@, entries[i].1@.len() as int, slot));
        } else {
            if exists|i: int|
                0 <= i < entries.len() && covered(
                    (#[trigger] entries[i]).1@,
                    entries[i].1@.len() as int,
                    slot,
                ) {
                let i = choose|i: int|
                    0 <= i < entries.len() && covered(
                        (#[trigger] entries[i]).1@,
                        entries[i].1@.len() as int,
                        slot,
                    );
                assert(i < last);
                assert(covered(
                    entries.drop_last()[i].1@,
                    entries.drop_last()[i].1@.len() as int,
                    slot,
                ));
            }
        }
    }
}

} // verus!
