use shard_proxy::common::db::{DBMapFlags, NodeSlots};
use shard_proxy::protocol::encoder::resp_to_bytes;
use shard_proxy::protocol::resp::{Array, BulkStr, Resp};
use shard_proxy::proxy::database::DBError;
use shard_proxy::proxy::manager::{MetaManager, MetaMap};
use shard_proxy::proxy::service::ServerProxyConfig;
use shard_proxy::proxy::shared::SharedMetaMap;
use shard_proxy::proxy::slot::{SlotRange, SlotRangeTag};
use shard_proxy::proxy::topology::{push_cluster_lines, push_cluster_slots};
use shard_proxy::proxy::umctl::handle_admin;
use shard_proxy::replication::manager::{ReplPeer, ReplicatorManager, ReplicatorMeta};

fn command(text: &str) -> Resp {
    Resp::Arr(Array::Arr(
        text.split(' ').map(|w| Resp::Bulk(BulkStr::Str(w.as_bytes().to_vec()))).collect(),
    ))
}

fn manager() -> MetaManager {
    let mut manager = MetaManager::new(
        ServerProxyConfig { address: "a".to_string(), auto_select_db: false },
        SharedMetaMap::new(MetaMap::new()),
    );
    let set = "UMCTL SETDB 1 NOFLAG c B1:6379 3 0 100 NONE 100 100 NONE 200 16384 NONE d B2:6379 1 5 6 NONE";
    assert_eq!(resp_to_bytes(&handle_admin(&mut manager, &command(set)).reply), b"+OK\r\n");
    let peer = "UMCTL SETPEER 1 NOFLAG c P9:5299 1 100 200 NONE";
    assert_eq!(resp_to_bytes(&handle_admin(&mut manager, &command(peer)).reply), b"+OK\r\n");
    manager
}

fn entry(start: &str, last: &str, address: &str) -> Resp {
    Resp::Arr(Array::Arr(vec![
        Resp::Integer(start.as_bytes().to_vec()),
        Resp::Integer(last.as_bytes().to_vec()),
        Resp::Arr(Array::Arr(vec![Resp::Bulk(BulkStr::Str(address.as_bytes().to_vec()))])),
    ]))
}

#[test]
fn cluster_nodes_lists_own_backends_then_peers() {
    let manager = manager();
    assert_eq!(
        manager.gen_cluster_nodes("c".to_string()),
        "B1:6379 0-99 200-16383\nP9:5299 100-199\n"
    );
    assert_eq!(manager.gen_cluster_nodes("d".to_string()), "B2:6379 5-5\n");
    assert_eq!(manager.gen_cluster_nodes("e".to_string()), "");
}

#[test]
fn cluster_slots_has_an_entry_for_each_range() {
    let manager = manager();
    assert_eq!(
        manager.gen_cluster_slots("c".to_string()),
        Ok(vec![
            entry("0", "99", "B1:6379"),
            entry("200", "16383", "B1:6379"),
            entry("100", "199", "P9:5299"),
        ])
    );
    assert_eq!(manager.gen_cluster_slots("d".to_string()), Ok(vec![entry("5", "5", "B2:6379")]));
    assert_eq!(manager.gen_cluster_slots("e".to_string()), Err("Err db not found".to_string()));
}

#[test]
fn cluster_topology_on_the_wire() {
    let mut manager = manager();
    assert_eq!(
        resp_to_bytes(&handle_admin(&mut manager, &command("UMCTL CLUSTER NODES d")).reply),
        b"$12\r\nB2:6379 5-5\n\r\n"
    );
    assert_eq!(
        resp_to_bytes(&handle_admin(&mut manager, &command("UMCTL CLUSTER SLOTS d")).reply),
        b"*1\r\n*3\r\n:5\r\n:5\r\n*1\r\n$7\r\nB2:6379\r\n"
    );
    assert_eq!(
        resp_to_bytes(&handle_admin(&mut manager, &command("UMCTL CLUSTER SLOTS e")).reply),
        b"-Err db not found\r\n"
    );
    assert_eq!(
        resp_to_bytes(&handle_admin(&mut manager, &command("UMCTL CLUSTER NODES")).reply),
        b"-Err invalid arg\r\n"
    );
    assert_eq!(
        resp_to_bytes(&handle_admin(&mut manager, &command("UMCTL CLUSTER KEYS d")).reply),
        b"-Err invalid arg\r\n"
    );
}

#[test]
fn lines_and_entries_are_appended() {
    let nodes = vec![NodeSlots {
        cluster_name: "c".to_string(),
        address: "B1".to_string(),
        slot_ranges: vec![SlotRange { start: 1, end: 3, tag: SlotRangeTag::NoTag }],
    }];
    let mut text = "x\n".to_string();
    push_cluster_lines(&mut text, &nodes, &"c".to_string());
    push_cluster_lines(&mut text, &nodes, &"d".to_string());
    assert_eq!(text, "x\nB1 1-2\n");
    let mut entries = vec![Resp::Simple(b"x".to_vec())];
    push_cluster_slots(&mut entries, &nodes, &"c".to_string());
    push_cluster_slots(&mut entries, &nodes, &"d".to_string());
    assert_eq!(entries, vec![Resp::Simple(b"x".to_vec()), entry("1", "2", "B1")]);
}

fn pair(master: &str, replica: &str) -> ReplPeer {
    ReplPeer {
        db_name: "c".to_string(),
        master_node_address: master.to_string(),
        replica_node_address: replica.to_string(),
    }
}

fn repl(epoch: u64, force: bool, masters: usize) -> ReplicatorMeta {
    ReplicatorMeta {
        epoch,
        flags: DBMapFlags { force },
        masters: (0..masters).map(|_| pair("B1", "B2")).collect(),
        replicas: vec![pair("B3", "B1")],
    }
}

#[test]
fn replication_metadata_is_gated_by_its_epoch() {
    let mut replicators = ReplicatorManager::new();
    assert_eq!(replicators.get_metadata_report(), "epoch:0\r\nmasters:0\r\nreplicas:0\r\n");
    assert_eq!(replicators.update_replicators(repl(3, false, 2)), Ok(()));
    assert_eq!(replicators.get_epoch(), 3);
    assert_eq!(replicators.get_metadata_report(), "epoch:3\r\nmasters:2\r\nreplicas:1\r\n");
    assert_eq!(replicators.update_replicators(repl(3, false, 5)), Err(DBError::OldEpoch));
    assert_eq!(replicators.update_replicators(repl(2, false, 5)), Err(DBError::OldEpoch));
    assert_eq!(replicators.get_metadata_report(), "epoch:3\r\nmasters:2\r\nreplicas:1\r\n");
    assert_eq!(replicators.update_replicators(repl(1, true, 0)), Ok(()));
    assert_eq!(replicators.get_metadata_report(), "epoch:1\r\nmasters:0\r\nreplicas:1\r\n");
}

#[test]
fn manager_keeps_replication_apart_from_the_topology() {
    let mut manager = manager();
    assert_eq!(manager.get_replication_info(), "epoch:0\r\nmasters:0\r\nreplicas:0\r\n");
    assert_eq!(manager.update_replicators(repl(9, false, 1)), Ok(()));
    assert_eq!(manager.get_replication_info(), "epoch:9\r\nmasters:1\r\nreplicas:1\r\n");
    assert_eq!(manager.update_replicators(repl(9, false, 1)), Err(DBError::OldEpoch));
    assert_eq!(manager.get_epoch(), 1);
    assert_eq!(manager.get_dbs(), vec!["c".to_string(), "d".to_string()]);
}
