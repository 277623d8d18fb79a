use shard_proxy::proxy::slot::{
    hash_tag_of, slot_of_key, MigrationMeta, SlotMap, SlotMapData, SlotRange, SlotRangeTag,
    SLOT_NUM,
};

fn plain(start: usize, end: usize) -> SlotRange {
    SlotRange { start, end, tag: SlotRangeTag::NoTag }
}

fn map_of(ranges: Vec<(&str, Vec<SlotRange>)>) -> SlotMap {
    SlotMap::from_ranges(ranges.into_iter().map(|(a, r)| (a.to_string(), r)).collect())
}

#[test]
fn slot_of_k() {
    assert_eq!(slot_of_key(b"k"), 7629);
}

#[test]
fn known_checksums() {
    // CRC-16/XMODEM of "123456789" is 0x31C3.
    assert_eq!(slot_of_key(b"123456789"), 0x31C3 % 16384);
    assert_eq!(slot_of_key(b""), 0);
    assert_eq!(slot_of_key(b"foo"), 12182);
    assert_eq!(slot_of_key(b"bar"), 5061);
}

#[test]
fn slot_is_no_copy_of_the_key() {
    assert_ne!(slot_of_key(b"a"), slot_of_key(b"b"));
    assert_ne!(slot_of_key(b"a"), b'a' as usize);
}

#[test]
fn hashtag_selects_what_is_hashed() {
    assert_eq!(hash_tag_of(b"foo{bar}baz"), b"bar");
    assert_eq!(hash_tag_of(b"{}foo"), b"{}foo");
    assert_eq!(hash_tag_of(b"foo"), b"foo");
    assert_eq!(hash_tag_of(b"foo{bar"), b"foo{bar");
    assert_eq!(hash_tag_of(b"foo}bar{"), b"foo}bar{");
    assert_eq!(hash_tag_of(b"}{a}"), b"a");
    assert_eq!(hash_tag_of(b"{a}{b}"), b"a");
    assert_eq!(hash_tag_of(b"x{}{b}"), b"x{}{b}");
    assert_eq!(hash_tag_of(b"{{a}}"), b"{a");
    assert_eq!(hash_tag_of(b""), b"");
}

#[test]
fn hashtag_decides_the_slot() {
    assert_eq!(slot_of_key(b"foo{bar}baz"), slot_of_key(b"bar"));
    assert_eq!(slot_of_key(b"{user1}.name"), slot_of_key(b"{user1}.age"));
    assert_ne!(slot_of_key(b"{}foo"), slot_of_key(b"foo"));
}

#[test]
fn first_and_last_slot_route_and_the_next_number_does_not() {
    let map = map_of(vec![("B1", vec![plain(0, 16384)])]);
    assert_eq!(map.get(0), Some("B1".to_string()));
    assert_eq!(map.get(16383), Some("B1".to_string()));
    assert_eq!(map.get(16384), None);
    assert_eq!(map.get(usize::MAX), None);
    assert_eq!(SLOT_NUM, 16384);
}

#[test]
fn ranges_are_half_open() {
    let map = map_of(vec![("a", vec![plain(0, 100)]), ("b", vec![plain(100, 200)])]);
    assert_eq!(map.get(99), Some("a".to_string()));
    assert_eq!(map.get(100), Some("b".to_string()));
    assert_eq!(map.get(199), Some("b".to_string()));
    assert_eq!(map.get(200), None);
}

#[test]
fn range_end_is_clamped() {
    let map = map_of(vec![("a", vec![plain(16000, 99999)])]);
    assert_eq!(map.get(16383), Some("a".to_string()));
    assert_eq!(map.get(15999), None);
    let none = map_of(vec![("a", vec![plain(20000, 30000)])]);
    assert_eq!(none.get(16383), None);
}

#[test]
fn empty_and_reversed_ranges_hold_nothing() {
    let map = map_of(vec![("a", vec![plain(5, 5), plain(9, 3)])]);
    for slot in 0..12 {
        assert_eq!(map.get(slot), None);
    }
}

#[test]
fn later_backend_wins_where_ranges_overlap() {
    let map = map_of(vec![("a", vec![plain(0, 100)]), ("b", vec![plain(50, 150)])]);
    assert_eq!(map.get(49), Some("a".to_string()));
    assert_eq!(map.get(50), Some("b".to_string()));
    assert_eq!(map.get(149), Some("b".to_string()));
}

#[test]
fn tagged_ranges_are_expanded_too() {
    let meta = MigrationMeta {
        epoch: 1,
        src_node_address: "a".to_string(),
        dst_node_address: "b".to_string(),
    };
    let map = map_of(vec![(
        "a",
        vec![SlotRange { start: 0, end: 10, tag: SlotRangeTag::Migrating(meta) }],
    )]);
    assert_eq!(map.get(3), Some("a".to_string()));
}

#[test]
fn map_from_slot_lists() {
    let map = SlotMap::new(vec![
        ("a".to_string(), vec![0, 1, 2, 99999]),
        ("b".to_string(), vec![2, 3]),
    ]);
    assert_eq!(map.get(0), Some("a".to_string()));
    assert_eq!(map.get(2), Some("b".to_string()));
    assert_eq!(map.get(3), Some("b".to_string()));
    assert_eq!(map.get(4), None);
    let data = SlotMapData::new(vec![("a".to_string(), vec![7])]);
    assert_eq!(data.get(7), Some("a".to_string()));
    assert_eq!(data.get(8), None);
    assert_eq!(data.get(16384), None);
}

#[test]
fn get_by_key_routes_by_the_slot_of_the_key() {
    let map = map_of(vec![("B1", vec![plain(0, 7629)]), ("B2", vec![plain(7629, 16384)])]);
    assert_eq!(map.get_slot(b"k"), 7629);
    assert_eq!(map.get_by_key(b"k"), Some("B2".to_string()));
    assert_eq!(map.get_by_key(b"x{k}y"), Some("B2".to_string()));
    assert_eq!(map.get_by_key(b"bar"), Some("B1".to_string()));
    assert_eq!(map.get_by_key(b"foo"), Some("B2".to_string()));
}

#[test]
fn a_slot_has_one_owner() {
    let map = map_of(vec![
        ("a", vec![plain(0, 8192)]),
        ("b", vec![plain(8192, 16384)]),
        ("c", vec![plain(4096, 4100)]),
    ]);
    for slot in 0..SLOT_NUM {
        let owner = map.get(slot);
        assert!(owner.is_some());
        assert_eq!(map.get(slot), owner);
    }
}
