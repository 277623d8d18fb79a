use shard_proxy::common::cluster::MigrationTaskMeta;
use shard_proxy::common::db::{DBMapFlags, NodeSlots, ProxyDBMeta};
use shard_proxy::migration::task::{MgrSubCmd, SwitchArg, SwitchError};
use shard_proxy::protocol::resp::{Array, BulkStr, Resp};
use shard_proxy::proxy::command::{CmdReplySender, Command, CommandError};
use shard_proxy::proxy::database::{DBError, DBSendError, DatabaseMap};
use shard_proxy::proxy::manager::{has_overlap, route_cmd_ctx, send_cmd_ctx, MetaManager, MetaMap};
use shard_proxy::proxy::shared::SharedMetaMap;
use shard_proxy::proxy::service::ServerProxyConfig;
use shard_proxy::proxy::session::CmdCtx;
use shard_proxy::proxy::slot::{slot_of_key, MigrationMeta, SlotRange, SlotRangeTag};

fn config() -> ServerProxyConfig {
    ServerProxyConfig { address: "127.0.0.1:5299".to_string(), auto_select_db: true }
}

fn bulk(s: &str) -> Resp {
    Resp::Bulk(BulkStr::Str(s.as_bytes().to_vec()))
}

fn get(db: &str, key: &str) -> CmdCtx {
    let cmd = Command::new(Resp::Arr(Array::Arr(vec![bulk("GET"), bulk(key)])));
    CmdCtx::new(db.to_string(), CmdReplySender::new(0, cmd))
}

fn plain(start: usize, end: usize) -> SlotRange {
    SlotRange { start, end, tag: SlotRangeTag::NoTag }
}

fn meta(epoch: u64) -> MigrationMeta {
    MigrationMeta {
        epoch,
        src_node_address: "B1".to_string(),
        dst_node_address: "B2".to_string(),
    }
}

fn migrating(start: usize, end: usize, epoch: u64) -> SlotRange {
    SlotRange { start, end, tag: SlotRangeTag::Migrating(meta(epoch)) }
}

fn importing(start: usize, end: usize, epoch: u64) -> SlotRange {
    SlotRange { start, end, tag: SlotRangeTag::Importing(meta(epoch)) }
}

fn node(cluster: &str, address: &str, ranges: Vec<SlotRange>) -> NodeSlots {
    NodeSlots {
        cluster_name: cluster.to_string(),
        address: address.to_string(),
        slot_ranges: ranges,
    }
}

fn topology(epoch: u64, force: bool, local: Vec<NodeSlots>) -> ProxyDBMeta {
    ProxyDBMeta::new(epoch, DBMapFlags { force }, local, vec![])
}

fn whole(epoch: u64) -> ProxyDBMeta {
    topology(epoch, false, vec![node("c", "B1", vec![plain(0, 16384)])])
}

fn target(manager: &MetaManager, db: &str, key: &str) -> Result<String, &'static str> {
    match manager.send(get(db, key)) {
        Ok(forward) => Ok(forward.address),
        Err(DBSendError::DBNotFound(_)) => Err("db"),
        Err(DBSendError::SlotNotFound(_)) => Err("slot"),
        Err(DBSendError::MissingKey(_)) => Err("key"),
        Err(DBSendError::Busy(_)) => Err("busy"),
    }
}

fn switch(range: SlotRange) -> SwitchArg {
    SwitchArg {
        version: "1".to_string(),
        meta: MigrationTaskMeta { db_name: "c".to_string(), slot_range: range },
    }
}

/// A key whose slot is below 8192, and one whose slot is not.
fn keys() -> (&'static str, &'static str) {
    assert!(slot_of_key(b"k") < 8192);
    assert!(slot_of_key(b"foo") >= 8192);
    ("k", "foo")
}

#[test]
fn new_manager_is_empty_at_epoch_zero() {
    let manager = MetaManager::new(config(), SharedMetaMap::new(MetaMap::new()));
    assert_eq!(manager.get_epoch(), 0);
    assert!(manager.get_dbs().is_empty());
    assert!(manager.get_finished_migration_tasks().is_empty());
    assert_eq!(target(&manager, "c", "k"), Err("db"));
    assert_eq!(manager.get_config().address, "127.0.0.1:5299");
}

#[test]
fn basic_get_routing() {
    let mut manager = MetaManager::new(config(), SharedMetaMap::new(MetaMap::new()));
    assert!(manager.set_meta(whole(1)).is_ok());
    assert_eq!(manager.get_dbs(), vec!["c".to_string()]);
    let forward = manager.send(get("c", "k")).ok().unwrap();
    assert_eq!(forward.address, "B1");
    assert_eq!(forward.cmd_ctx.get_db_name(), "c");
    assert_eq!(
        *forward.cmd_ctx.get_resp(),
        Resp::Arr(Array::Arr(vec![bulk("GET"), bulk("k")]))
    );
}

#[test]
fn epoch_rejection() {
    let mut manager = MetaManager::new(config(), SharedMetaMap::new(MetaMap::new()));
    assert!(manager.set_meta(whole(5)).is_ok());
    assert_eq!(manager.get_epoch(), 5);
    let older = topology(4, false, vec![node("other", "B9", vec![plain(0, 16384)])]);
    assert_eq!(manager.set_meta(older).err(), Some(DBError::OldEpoch));
    assert_eq!(manager.get_epoch(), 5);
    assert_eq!(manager.get_dbs(), vec!["c".to_string()]);
    assert_eq!(target(&manager, "c", "k"), Ok("B1".to_string()));
    assert_eq!(target(&manager, "other", "k"), Err("db"));
}

#[test]
fn same_epoch_is_old() {
    let mut manager = MetaManager::new(config(), SharedMetaMap::new(MetaMap::new()));
    assert!(manager.set_meta(whole(5)).is_ok());
    assert_eq!(manager.set_meta(whole(5)).err(), Some(DBError::OldEpoch));
    let mut fresh = MetaManager::new(config(), SharedMetaMap::new(MetaMap::new()));
    assert_eq!(fresh.set_meta(whole(0)).err(), Some(DBError::OldEpoch));
}

#[test]
fn force_overrides_the_epoch() {
    let mut manager = MetaManager::new(config(), SharedMetaMap::new(MetaMap::new()));
    assert!(manager.set_meta(whole(5)).is_ok());
    let forced = topology(3, true, vec![node("d", "B7", vec![plain(0, 16384)])]);
    assert!(manager.set_meta(forced).is_ok());
    assert_eq!(manager.get_epoch(), 3);
    assert_eq!(manager.get_dbs(), vec!["d".to_string()]);
    assert_eq!(target(&manager, "d", "k"), Ok("B7".to_string()));
    assert_eq!(target(&manager, "c", "k"), Err("db"));
}

#[test]
fn accepted_epochs_increase() {
    let mut manager = MetaManager::new(config(), SharedMetaMap::new(MetaMap::new()));
    let mut accepted = vec![];
    for epoch in [3u64, 1, 3, 7, 7, 2, 9] {
        if manager.set_meta(whole(epoch)).is_ok() {
            accepted.push(epoch);
        }
        assert_eq!(manager.get_epoch(), *accepted.last().unwrap());
    }
    assert_eq!(accepted, vec![3, 7, 9]);
}

#[test]
fn routing_errors() {
    let mut manager = MetaManager::new(config(), SharedMetaMap::new(MetaMap::new()));
    let half = topology(1, false, vec![node("c", "B1", vec![plain(0, 8192)])]);
    assert!(manager.set_meta(half).is_ok());
    let (low, high) = keys();
    assert_eq!(target(&manager, "c", low), Ok("B1".to_string()));
    assert_eq!(target(&manager, "c", high), Err("slot"));
    assert_eq!(target(&manager, "nope", low), Err("db"));
    let ping = CmdCtx::new(
        "c".to_string(),
        CmdReplySender::new(0, Command::new(Resp::Arr(Array::Arr(vec![bulk("PING")])))),
    );
    assert!(matches!(manager.send(ping), Err(DBSendError::MissingKey(_))));
    let odd = CmdCtx::new(
        "c".to_string(),
        CmdReplySender::new(0, Command::new(Resp::Simple(b"PING".to_vec()))),
    );
    assert!(matches!(manager.send(odd), Err(DBSendError::MissingKey(_))));
}

#[test]
fn a_request_that_is_not_routed_comes_back() {
    let manager = MetaManager::new(config(), SharedMetaMap::new(MetaMap::new()));
    match manager.send(get("c", "k")) {
        Err(DBSendError::DBNotFound(ctx)) => {
            assert_eq!(ctx.get_db_name(), "c");
            assert_eq!(ctx.into_result(), Err(CommandError::Dropped));
        }
        _ => panic!("expected DBNotFound"),
    }
}

#[test]
fn migration_pre_commit() {
    let mut manager = MetaManager::new(config(), SharedMetaMap::new(MetaMap::new()));
    let local = vec![
        node("c", "B1", vec![migrating(0, 8192, 1), plain(8192, 16384)]),
    ];
    let update = manager.set_meta(topology(1, false, local)).unwrap();
    assert_eq!(update.new_tasks.len(), 1);
    let (low, high) = keys();
    assert_eq!(target(&manager, "c", low), Ok("B1".to_string()));
    assert_eq!(target(&manager, "c", high), Ok("B1".to_string()));
    assert!(manager.get_finished_migration_tasks().is_empty());

    assert_eq!(manager.handle_switch(switch(migrating(0, 8192, 1)), MgrSubCmd::Commit), Ok(()));
    assert_eq!(target(&manager, "c", low), Ok("B2".to_string()));
    assert_eq!(target(&manager, "c", high), Ok("B1".to_string()));
    let finished = manager.get_finished_migration_tasks();
    assert_eq!(finished.len(), 1);
    assert_eq!(finished[0].db_name, "c");
    assert_eq!(finished[0].slot_range, migrating(0, 8192, 1));
}

#[test]
fn commit_is_idempotent_and_does_not_regress() {
    let mut manager = MetaManager::new(config(), SharedMetaMap::new(MetaMap::new()));
    let local = vec![node("c", "B1", vec![migrating(0, 8192, 1)])];
    assert!(manager.set_meta(topology(1, false, local)).is_ok());
    for sub_cmd in [
        MgrSubCmd::Commit,
        MgrSubCmd::Commit,
        MgrSubCmd::PreCheck,
        MgrSubCmd::PreBlock,
        MgrSubCmd::Commit,
    ] {
        assert_eq!(manager.handle_switch(switch(importing(0, 8192, 1)), sub_cmd), Ok(()));
        assert_eq!(target(&manager, "c", "k"), Ok("B2".to_string()));
        assert_eq!(manager.get_finished_migration_tasks().len(), 1);
    }
}

#[test]
fn importing_side_switches_on_commit() {
    let mut manager = MetaManager::new(config(), SharedMetaMap::new(MetaMap::new()));
    let local = vec![node("c", "B2", vec![importing(0, 8192, 1)])];
    assert!(manager.set_meta(topology(1, false, local)).is_ok());
    assert_eq!(target(&manager, "c", "k"), Ok("B1".to_string()));
    assert_eq!(manager.handle_switch(switch(migrating(0, 8192, 1)), MgrSubCmd::PreCheck), Ok(()));
    assert_eq!(target(&manager, "c", "k"), Ok("B1".to_string()));
    assert_eq!(manager.handle_switch(switch(migrating(0, 8192, 1)), MgrSubCmd::PreBlock), Ok(()));
    assert_eq!(target(&manager, "c", "k"), Ok("B1".to_string()));
    assert_eq!(manager.handle_switch(switch(migrating(0, 8192, 1)), MgrSubCmd::Commit), Ok(()));
    assert_eq!(target(&manager, "c", "k"), Ok("B2".to_string()));
    let finished = manager.get_finished_migration_tasks();
    assert_eq!(finished[0].slot_range, importing(0, 8192, 1));
}

#[test]
fn switch_errors() {
    let mut manager = MetaManager::new(config(), SharedMetaMap::new(MetaMap::new()));
    let local = vec![node("c", "B1", vec![migrating(0, 8192, 1)])];
    assert!(manager.set_meta(topology(1, false, local)).is_ok());
    assert_eq!(
        manager.handle_switch(switch(plain(0, 8192)), MgrSubCmd::Commit),
        Err(SwitchError::InvalidArg)
    );
    assert_eq!(
        manager.handle_switch(switch(migrating(0, 8192, 2)), MgrSubCmd::Commit),
        Err(SwitchError::NotReady)
    );
    assert_eq!(
        manager.handle_switch(switch(migrating(0, 4096, 1)), MgrSubCmd::Commit),
        Err(SwitchError::TaskNotFound)
    );
    assert_eq!(
        manager.handle_switch(switch(migrating(0, 8192, 0)), MgrSubCmd::Commit),
        Err(SwitchError::TaskNotFound)
    );
    assert_eq!(target(&manager, "c", "k"), Ok("B1".to_string()));
    assert!(manager.get_finished_migration_tasks().is_empty());
}

#[test]
fn committed_task_survives_an_update_that_names_it() {
    let mut manager = MetaManager::new(config(), SharedMetaMap::new(MetaMap::new()));
    let local = || vec![node("c", "B1", vec![migrating(0, 8192, 1)])];
    assert!(manager.set_meta(topology(1, false, local())).is_ok());
    assert_eq!(manager.handle_switch(switch(migrating(0, 8192, 1)), MgrSubCmd::Commit), Ok(()));
    let update = manager.set_meta(topology(2, false, local())).unwrap();
    assert!(update.new_tasks.is_empty());
    assert_eq!(target(&manager, "c", "k"), Ok("B2".to_string()));
    assert_eq!(manager.get_finished_migration_tasks().len(), 1);
}

#[test]
fn forced_update_leaves_a_named_migration_as_it_is() {
    let mut manager = MetaManager::new(config(), SharedMetaMap::new(MetaMap::new()));
    let local = || vec![node("c", "B1", vec![migrating(0, 8192, 1)])];
    assert!(manager.set_meta(topology(5, false, local())).is_ok());
    assert_eq!(manager.handle_switch(switch(migrating(0, 8192, 1)), MgrSubCmd::Commit), Ok(()));
    assert!(manager.set_meta(topology(2, true, local())).is_ok());
    assert_eq!(target(&manager, "c", "k"), Ok("B2".to_string()));
}

#[test]
fn update_that_omits_a_migration_drops_it() {
    let mut manager = MetaManager::new(config(), SharedMetaMap::new(MetaMap::new()));
    let local = vec![node("c", "B1", vec![migrating(0, 8192, 1)])];
    assert!(manager.set_meta(topology(1, false, local)).is_ok());
    assert_eq!(manager.handle_switch(switch(migrating(0, 8192, 1)), MgrSubCmd::Commit), Ok(()));
    let after = vec![node("c", "B2", vec![plain(0, 8192)])];
    let update = manager.set_meta(topology(2, false, after)).unwrap();
    assert!(update.new_tasks.is_empty());
    assert!(manager.get_finished_migration_tasks().is_empty());
    assert_eq!(target(&manager, "c", "k"), Ok("B2".to_string()));
    assert_eq!(
        manager.handle_switch(switch(migrating(0, 8192, 1)), MgrSubCmd::Commit),
        Err(SwitchError::TaskNotFound)
    );
}

#[test]
fn a_migration_that_both_ends_name_is_held_once() {
    let mut manager = MetaManager::new(config(), SharedMetaMap::new(MetaMap::new()));
    let local = vec![
        node("c", "B1", vec![migrating(0, 8192, 1)]),
        node("c", "B2", vec![importing(0, 8192, 1)]),
    ];
    let update = manager.set_meta(topology(1, false, local)).unwrap();
    assert_eq!(update.new_tasks.len(), 1);
    assert_eq!(update.new_tasks[0].slot_range, migrating(0, 8192, 1));
    assert_eq!(manager.get_meta_map().get_migration_map().len(), 1);
    assert_eq!(manager.get_meta_map().get_deleting_task_map().len(), 1);
}

#[test]
fn migrating_ranges_are_not_owned_by_the_database_map() {
    let mut manager = MetaManager::new(config(), SharedMetaMap::new(MetaMap::new()));
    let local = vec![node("c", "B1", vec![migrating(0, 8192, 1), plain(8192, 16384)])];
    assert!(manager.set_meta(topology(1, false, local)).is_ok());
    let (low, high) = keys();
    let db_map: &DatabaseMap = manager.get_meta_map().get_db_map();
    assert!(matches!(db_map.send(get("c", low)), Err(DBSendError::SlotNotFound(_))));
    assert_eq!(db_map.send(get("c", high)).ok().unwrap().address, "B1");
}

#[test]
fn try_select_db_picks_the_only_database() {
    let mut manager = MetaManager::new(config(), SharedMetaMap::new(MetaMap::new()));
    assert_eq!(manager.try_select_db(get("admin", "k")).get_db_name(), "admin");
    assert!(manager.set_meta(whole(1)).is_ok());
    assert_eq!(manager.try_select_db(get("admin", "k")).get_db_name(), "c");
    assert_eq!(manager.try_select_db(get("mine", "k")).get_db_name(), "mine");
    let two = topology(
        2,
        false,
        vec![node("c", "B1", vec![plain(0, 16384)]), node("d", "B2", vec![plain(0, 16384)])],
    );
    assert!(manager.set_meta(two).is_ok());
    assert_eq!(manager.try_select_db(get("admin", "k")).get_db_name(), "admin");
    assert_eq!(manager.get_dbs(), vec!["c".to_string(), "d".to_string()]);
}

#[test]
fn empty_meta_map() {
    let map = MetaMap::new();
    assert!(map.get_db_map().get_dbs().is_empty());
    assert_eq!(map.get_db_map().auto_select_db(), None);
    assert!(matches!(route_cmd_ctx(&map, get("c", "k")), Err(DBSendError::DBNotFound(_))));
}

#[test]
fn clusters_are_kept_apart() {
    let mut manager = MetaManager::new(config(), SharedMetaMap::new(MetaMap::new()));
    let local = vec![
        node("c", "B1", vec![plain(0, 16384)]),
        node("d", "B2", vec![plain(0, 8192)]),
        node("c", "B3", vec![plain(8192, 16384)]),
    ];
    assert!(manager.set_meta(topology(1, false, local)).is_ok());
    let (low, high) = keys();
    assert_eq!(target(&manager, "c", low), Ok("B1".to_string()));
    assert_eq!(target(&manager, "c", high), Ok("B3".to_string()));
    assert_eq!(target(&manager, "d", low), Ok("B2".to_string()));
    assert_eq!(target(&manager, "d", high), Err("slot"));
}

fn published_target(published: &SharedMetaMap, key: &str) -> Result<String, &'static str> {
    match send_cmd_ctx(published, get("c", key)) {
        Ok(forward) => Ok(forward.address),
        Err(DBSendError::DBNotFound(_)) => Err("db"),
        Err(DBSendError::SlotNotFound(_)) => Err("slot"),
        Err(DBSendError::MissingKey(_)) => Err("key"),
        Err(DBSendError::Busy(_)) => Err("busy"),
    }
}

#[test]
fn accepted_updates_are_published() {
    let published = SharedMetaMap::new(MetaMap::new());
    let mut manager = MetaManager::new(config(), published.share());
    assert_eq!(published_target(&published, "k"), Err("db"));
    assert!(manager.set_meta(whole(1)).is_ok());
    assert_eq!(published_target(&published, "k"), Ok("B1".to_string()));
    assert_eq!(published_target(&manager.get_published(), "k"), Ok("B1".to_string()));
    let other = topology(2, false, vec![node("c", "B5", vec![plain(0, 16384)])]);
    assert!(manager.set_meta(other).is_ok());
    assert_eq!(published_target(&published, "k"), Ok("B5".to_string()));
}

#[test]
fn refused_update_is_not_published() {
    let published = SharedMetaMap::new(MetaMap::new());
    let mut manager = MetaManager::new(config(), published.share());
    assert!(manager.set_meta(whole(5)).is_ok());
    let older = topology(4, false, vec![node("c", "B9", vec![plain(0, 16384)])]);
    assert!(manager.set_meta(older).is_err());
    assert_eq!(published_target(&published, "k"), Ok("B1".to_string()));
}

#[test]
fn a_snapshot_stays_as_it_was_taken() {
    let published = SharedMetaMap::new(MetaMap::new());
    let mut manager = MetaManager::new(config(), published.share());
    assert!(manager.set_meta(whole(1)).is_ok());
    let before = published.load();
    let other = topology(2, false, vec![node("c", "B5", vec![plain(0, 16384)])]);
    assert!(manager.set_meta(other).is_ok());
    let after = published.load();
    assert_eq!(route_cmd_ctx(&before, get("c", "k")).ok().unwrap().address, "B1");
    assert_eq!(route_cmd_ctx(&after, get("c", "k")).ok().unwrap().address, "B5");
}

#[test]
fn a_switch_is_published() {
    let published = SharedMetaMap::new(MetaMap::new());
    let mut manager = MetaManager::new(config(), published.share());
    let local = vec![node("c", "B1", vec![migrating(0, 8192, 1)])];
    assert!(manager.set_meta(topology(1, false, local)).is_ok());
    assert_eq!(published_target(&published, "k"), Ok("B1".to_string()));
    assert_eq!(manager.handle_switch(switch(migrating(0, 8192, 1)), MgrSubCmd::Commit), Ok(()));
    assert_eq!(published_target(&published, "k"), Ok("B2".to_string()));
}

#[test]
fn a_new_manager_publishes_an_empty_snapshot() {
    let mut first = MetaManager::new(config(), SharedMetaMap::new(MetaMap::new()));
    assert!(first.set_meta(whole(1)).is_ok());
    let published = first.get_published();
    assert_eq!(published_target(&published, "k"), Ok("B1".to_string()));
    let _second = MetaManager::new(config(), published.share());
    assert_eq!(published_target(&published, "k"), Err("db"));
}

#[test]
fn stored_snapshot_is_loaded() {
    let published = SharedMetaMap::new(MetaMap::new());
    let mut manager = MetaManager::new(config(), SharedMetaMap::new(MetaMap::new()));
    assert!(manager.set_meta(whole(1)).is_ok());
    published.store(manager.get_meta_map().duplicate());
    assert_eq!(published_target(&published, "k"), Ok("B1".to_string()));
    assert_eq!(published.load().get_db_map().get_dbs(), vec!["c".to_string()]);
}

#[test]
fn overlapping_ranges_are_detected() {
    assert!(!has_overlap(&vec![]));
    assert!(!has_overlap(&vec![node("c", "B1", vec![plain(0, 100), plain(100, 200)])]));
    assert!(has_overlap(&vec![node("c", "B1", vec![plain(0, 100), plain(99, 200)])]));
    assert!(has_overlap(&vec![
        node("c", "B1", vec![plain(0, 100)]),
        node("d", "B2", vec![plain(0, 100)]),
        node("c", "B3", vec![plain(50, 60)]),
    ]));
    assert!(!has_overlap(&vec![
        node("c", "B1", vec![plain(0, 100)]),
        node("d", "B2", vec![plain(0, 100)]),
    ]));
    assert!(has_overlap(&vec![node("c", "B1", vec![plain(5, 6), plain(5, 6)])]));
    assert!(!has_overlap(&vec![node("c", "B1", vec![plain(5, 5), plain(0, 10), plain(9, 3)])]));
    assert!(has_overlap(&vec![node("c", "B1", vec![migrating(0, 10, 1), importing(9, 20, 1)])]));
}

#[test]
fn an_overlapping_topology_is_taken_and_told_of() {
    let mut manager = MetaManager::new(config(), SharedMetaMap::new(MetaMap::new()));
    let local = vec![
        node("c", "B1", vec![plain(0, 16384)]),
        node("c", "B2", vec![plain(0, 8192)]),
    ];
    let update = manager.set_meta(topology(1, false, local)).unwrap();
    assert!(update.overlapping);
    let (low, high) = keys();
    assert_eq!(target(&manager, "c", low), Ok("B2".to_string()));
    assert_eq!(target(&manager, "c", high), Ok("B1".to_string()));
    assert!(!manager.set_meta(whole(2)).unwrap().overlapping);
}

#[test]
fn snapshot_selects_the_only_database() {
    let mut manager = MetaManager::new(config(), SharedMetaMap::new(MetaMap::new()));
    assert!(manager.set_meta(whole(1)).is_ok());
    let one = manager.snapshot();
    assert_eq!(one.get_db_map().get_dbs(), vec!["c".to_string()]);
    assert_eq!(one.try_select_db(get("admin", "k")).get_db_name(), "c");
    assert_eq!(one.try_select_db(get("mine", "k")).get_db_name(), "mine");
    assert_eq!(route_cmd_ctx(&one, get("c", "k")).ok().unwrap().address, "B1");
    assert_eq!(MetaMap::new().try_select_db(get("admin", "k")).get_db_name(), "admin");
}
