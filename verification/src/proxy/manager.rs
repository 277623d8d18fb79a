//! The metadata of a proxy: one snapshot of the database map, the migration
//! map and the deletion tasks, replaced as a whole under the epoch gate.

use super::database::{
    names_cluster, served_owner, DBError, DBSendError, DatabaseMap, Forward, Route,
};
use super::service::ServerProxyConfig;
use super::shared::SharedMetaMap;
use super::topology::{cluster_entries, cluster_lines, push_cluster_lines, push_cluster_slots};
use crate::protocol::resp::{model_of_items, Resp};
use crate::replication::manager::{replication_report, ReplicatorManager, ReplicatorMeta};
use super::session::{CmdCtx, DEFAULT_DB};
use super::slot::{key_slot, plainly_covered, range_covers, SlotRange, SlotRangeTag};
use crate::common::cluster::MigrationTaskMeta;
use crate::common::text::{decimal_chars, decimal_string};
use crate::common::db::{copy_nodes, node_views, HostDBMap, NodeSlots, ProxyDBMeta};
use crate::migration::delete_keys::{giving_ranges, DeleteKeysTaskMap};
use crate::migration::manager::{
    cover_position, first_named, lemma_cover_position, meta_keys, named_by, TaskKey,
    names_of, present, range_tasks, topology_tasks, unknown_keys, MigrationMap, NamedTask,
};
use crate::migration::task::{
    committed, state_after, MgrSubCmd, MigratingState, SwitchArg, SwitchError, TaskEvent,
    TaskState,
};
use crate::protocol::resp::RespValue;
use crate::proxy::command::command_key;
use crate::common::search::{lemma_position_of, position_of};
use vstd::prelude::*;
use vstd::string::*;

verus! {

/// One snapshot of what a proxy routes by. Its three parts belong together:
/// a request sees all of them as of one topology.
pub struct MetaMap {
    db_map: DatabaseMap,
    migration_map: MigrationMap,
    deleting_task_map: DeleteKeysTaskMap,
}

impl MetaMap {
    pub closed spec fn db_map(&self) -> DatabaseMap {
        self.db_map
    }

    pub closed spec fn migration_map(&self) -> MigrationMap {
        self.migration_map
    }

    pub closed spec fn deleting_task_map(&self) -> DeleteKeysTaskMap {
        self.deleting_task_map
    }

    /// Where a command for the database `db` goes: a migration that holds
    /// the slot of its key decides; where none does, the database map.
    pub open spec fn route_of(&self, db: Seq<char>, command: RespValue) -> Route {
        match command_key(command) {
            Some(key) => match self.migration_map().route(db, key_slot(key)) {
                Some(address) => Route::Backend(address),
                None => self.db_map().route_of(db, command),
            },
            None => self.db_map().route_of(db, command),
        }
    }

    /// A snapshot without databases, migrations or deletion tasks.
    pub fn new() -> (map: MetaMap)
        ensures
            forall|db: Seq<char>| !map.db_map().has_db(db),
            map.migration_map().keys().len() == 0,
            map.deleting_task_map().ranges().len() == 0,
    {
        MetaMap {
            db_map: DatabaseMap::new(),
            migration_map: MigrationMap::new(),
            deleting_task_map: DeleteKeysTaskMap::new(),
        }
    }

    /// Whether `other` is a snapshot of the same contents.
    pub open spec fn same_as(&self, other: MetaMap) -> bool {
        &&& self.db_map().names() == other.db_map().names()
        &&& forall|db: Seq<char>, slot: int| #[trigger]
            self.db_map().owner(db, slot) == other.db_map().owner(db, slot)
        &&& self.migration_map().keys() == other.migration_map().keys()
        &&& self.migration_map().states() == other.migration_map().states()
        &&& self.deleting_task_map().ranges() == other.deleting_task_map().ranges()
    }

    /// A copy of the snapshot.
    pub fn duplicate(&self) -> (copy: MetaMap)
        ensures
            copy.same_as(*self),
    {
        MetaMap {
            db_map: self.db_map.duplicate(),
            migration_map: self.migration_map.duplicate(),
            deleting_task_map: self.deleting_task_map.duplicate(),
        }
    }

    /// The database of a request that names `current`: a request on the
    /// default database gets the only database of the snapshot, where there
    /// is exactly one; any other request keeps its own.
    pub open spec fn selected_db(&self, current: Seq<char>) -> Seq<char> {
        if current == DEFAULT_DB@ && self.db_map().names().len() == 1 {
            self.db_map().names()[0]
        } else {
            current
        }
    }

    /// Gives a request that is on the default database the only database of
    /// the snapshot, where there is exactly one. Any other request stays as
    /// it is.
    pub fn try_select_db(&self, cmd_ctx: CmdCtx) -> (res: CmdCtx)
        ensures
            res.command() == cmd_ctx.command(),
            res.ticket() == cmd_ctx.ticket(),
            res.written() == cmd_ctx.written(),
            res.db_name() == self.selected_db(cmd_ctx.db_name()),
    {
        let name = cmd_ctx.get_db_name();
        if !(name == String::from_str(DEFAULT_DB)) {
            return cmd_ctx;
        }
        let mut cmd_ctx = cmd_ctx;
        if let Some(db_name) = self.db_map.auto_select_db() {
            cmd_ctx.set_db_name(db_name);
        }
        cmd_ctx
    }

    pub fn get_db_map(&self) -> (db_map: &DatabaseMap)
        ensures
            *db_map == self.db_map(),
    {
        &self.db_map
    }

    pub fn get_migration_map(&self) -> (migration_map: &MigrationMap)
        ensures
            *migration_map == self.migration_map(),
    {
        &self.migration_map
    }

    pub fn get_deleting_task_map(&self) -> (deleting_task_map: &DeleteKeysTaskMap)
        ensures
            *deleting_task_map == self.deleting_task_map(),
    {
        &self.deleting_task_map
    }
}

/// Whether `res` is what routing `cmd_ctx` by the snapshot `meta_map` gives:
/// the request with the backend that the snapshot has for it, or the request
/// with the reason why the snapshot has none.
pub open spec fn routed(
    meta_map: MetaMap,
    cmd_ctx: CmdCtx,
    res: Result<Forward, DBSendError>,
) -> bool {
    match meta_map.route_of(cmd_ctx.db_name(), cmd_ctx.command()) {
        Route::Backend(address) => res matches Ok(forward) && forward.address@ == address
            && forward.cmd_ctx == cmd_ctx,
        Route::DBNotFound => res matches Err(DBSendError::DBNotFound(ctx)) && ctx == cmd_ctx,
        Route::MissingKey => res matches Err(DBSendError::MissingKey(ctx)) && ctx == cmd_ctx,
        Route::SlotNotFound => res matches Err(DBSendError::SlotNotFound(ctx)) && ctx == cmd_ctx,
    }
}

/// Finds the backend for `cmd_ctx` in the snapshot that is published in
/// `meta_map` at the moment of the call. The request is routed by one
/// snapshot as a whole, whichever it is, and goes along or comes back as it
/// was.
pub fn send_cmd_ctx(meta_map: &SharedMetaMap, cmd_ctx: CmdCtx) -> (res: Result<
    Forward,
    DBSendError,
>)
    ensures
        exists|snapshot: MetaMap| #[trigger] routed(snapshot, cmd_ctx, res),
        match res {
            Ok(forward) => forward.cmd_ctx == cmd_ctx,
            Err(e) => e.cmd_ctx() == cmd_ctx,
        },
{
    let snapshot = meta_map.load();
    let res = route_cmd_ctx(&snapshot, cmd_ctx);
    assert(routed(*snapshot, cmd_ctx, res));
    res
}

/// Finds the backend for `cmd_ctx` in the snapshot `meta_map`: the
/// migrations are asked first, then the database map. The request goes
/// along; where there is no backend it comes back with the reason.
pub fn route_cmd_ctx(meta_map: &MetaMap, cmd_ctx: CmdCtx) -> (res: Result<Forward, DBSendError>)
    ensures
        routed(*meta_map, cmd_ctx, res),
{
    let cmd_ctx = match meta_map.migration_map.send(cmd_ctx) {
        Ok(forward) => {
            return Ok(forward);
        },
        Err(e) => match e {
            DBSendError::SlotNotFound(cmd_ctx) => cmd_ctx,
            err => {
                return Err(err);
            },
        },
    };
    meta_map.db_map.send(cmd_ctx)
}

/// Whether `nodes` has an entry for the cluster `db`.
fn has_cluster(nodes: &Vec<NodeSlots>, db: &String) -> (res: bool)
    ensures
        res == names_cluster(nodes@, db@),
{
    let mut i: usize = 0;
    while i < nodes.len()
        invariant
            i <= nodes.len(),
            forall|k: int| 0 <= k < i ==> (#[trigger] nodes@[k]).cluster_name@ != db@,
        decreases nodes.len() - i,
    {
        if nodes[i].cluster_name == *db {
            return true;
        }
        i += 1;
    }
    false
}

/// The epoch gate: an update is taken where it is newer than what the proxy
/// has, or forced.
pub open spec fn accepts(current: u64, epoch: u64, force: bool) -> bool {
    epoch > current || force
}

/// Whether `new` is the snapshot that the entries `local` of a topology
/// give, coming from the snapshot `old`: the database map is the one of the topology's own
/// part; the migration map holds the migrations that the topology names,
/// those that `old` held in the state they had, the others in their first
/// state; there is a deletion task for each migration on the giving side.
pub open spec fn installs(old: MetaMap, local: Seq<NodeSlots>, new: MetaMap) -> bool {
    let named = first_named(topology_tasks(local));
    &&& forall|db: Seq<char>| new.db_map().has_db(db) <==> names_cluster(local, db)
    &&& forall|db: Seq<char>, slot: int| #[trigger]
        new.db_map().owner(db, slot) == served_owner(local, db, slot)
    &&& new.migration_map().keys() == names_of(named)
    &&& forall|k: int|
        0 <= k < named.len() ==> #[trigger] new.migration_map().states()[k]
            == old.migration_map().carried_state(named[k])
    &&& new.deleting_task_map().ranges() == giving_ranges(
        new.migration_map().keys(),
        new.migration_map().states(),
        new.migration_map().keys().len() as int,
    )
}

/// The text of the report: a part on the databases and a part on the
/// migrations.
pub open spec fn info_text(dbs: nat, tasks: nat, deleting: nat) -> Seq<char> {
    "# DB\r\ndbs:"@ + decimal_chars(dbs) + "\r\n# Migration\r\ntasks:"@ + decimal_chars(tasks)
        + "\r\ndeleting:"@ + decimal_chars(deleting) + "\r\n"@
}

/// What an accepted update leaves to do outside: to start the drivers of
/// the migrations that are new, and to tell of ranges that overlap.
#[derive(Debug)]
pub struct MetaUpdate {
    /// The migrations that are new.
    pub new_tasks: Vec<MigrationTaskMeta>,
    /// Whether two ranges of one cluster in the topology have a slot in
    /// common.
    pub overlapping: bool,
}

/// The metadata of a proxy and its epoch.
pub struct MetaManager {
    config: ServerProxyConfig,
    meta_map: MetaMap,
    published: SharedMetaMap,
    epoch: u64,
    local: Vec<NodeSlots>,
    peer: Vec<NodeSlots>,
    peer_epoch: u64,
    replicator_manager: ReplicatorManager,
}

impl MetaManager {
    /// The epoch of the topology that the proxy has.
    pub closed spec fn epoch(&self) -> u64 {
        self.epoch
    }

    /// The snapshot that the proxy routes by.
    pub closed spec fn meta_map(&self) -> MetaMap {
        self.meta_map
    }

    pub closed spec fn config(&self) -> ServerProxyConfig {
        self.config
    }

    /// The cell into which the manager publishes its snapshot.
    pub closed spec fn published(&self) -> SharedMetaMap {
        self.published
    }

    /// What the proxy serves itself, as it was installed last.
    pub closed spec fn local(&self) -> Seq<NodeSlots> {
        self.local@
    }

    /// What the peers of the proxy serve.
    pub closed spec fn peer(&self) -> Seq<NodeSlots> {
        self.peer@
    }

    /// The replication metadata of the proxy.
    pub closed spec fn replicators(&self) -> ReplicatorManager {
        self.replicator_manager
    }

    /// The epoch of what the proxy knows of its peers.
    pub closed spec fn peer_epoch(&self) -> u64 {
        self.peer_epoch
    }

    /// Whether `other` has the configuration, the peers and the replication
    /// metadata of this manager.
    pub open spec fn same_surroundings(&self, other: MetaManager) -> bool {
        &&& self.config() == other.config()
        &&& self.published() == other.published()
        &&& self.peer() == other.peer()
        &&& self.peer_epoch() == other.peer_epoch()
        &&& self.replicators() == other.replicators()
    }

    /// Whether `other` has the topology of this manager: the epoch, the
    /// snapshot, and the entries that were installed.
    pub open spec fn same_topology(&self, other: MetaManager) -> bool {
        &&& self.epoch() == other.epoch()
        &&& self.meta_map() == other.meta_map()
        &&& self.local() == other.local()
    }

    /// Whether `other` differs from this manager in nothing but the states
    /// of its migrations.
    pub open spec fn same_but_states(&self, other: MetaManager) -> bool {
        &&& self.same_surroundings(other)
        &&& self.epoch() == other.epoch()
        &&& self.local() == other.local()
        &&& self.meta_map().db_map() == other.meta_map().db_map()
        &&& self.meta_map().deleting_task_map() == other.meta_map().deleting_task_map()
        &&& self.meta_map().migration_map().keys() == other.meta_map().migration_map().keys()
    }

    /// What a switch command for the migration `named` is answered with: a
    /// migration of an epoch that the proxy has not reached is not ready.
    pub open spec fn switched(&self, named: Option<NamedTask>) -> Result<(), SwitchError> {
        if named is Some && self.epoch() < named->0.key.epoch {
            Err(SwitchError::NotReady)
        } else {
            self.meta_map().migration_map().switched(named)
        }
    }

    /// A manager at epoch 0 with an empty snapshot, which publishes into
    /// `published`.
    pub fn new(config: ServerProxyConfig, published: SharedMetaMap) -> (manager: MetaManager)
        ensures
            manager.epoch() == 0,
            manager.published() == published,
            manager.peer_epoch() == 0,
            manager.peer().len() == 0,
            manager.local().len() == 0,
            manager.replicators().epoch() == 0,
            manager.config() == config,
            forall|db: Seq<char>| !manager.meta_map().db_map().has_db(db),
            manager.meta_map().migration_map().keys().len() == 0,
            manager.meta_map().deleting_task_map().ranges().len() == 0,
    {
        published.store(MetaMap::new());
        MetaManager {
            config,
            meta_map: MetaMap::new(),
            published,
            epoch: 0,
            local: Vec::new(),
            peer: Vec::new(),
            peer_epoch: 0,
            replicator_manager: ReplicatorManager::new(),
        }
    }

    pub fn get_peer(&self) -> (peer: &Vec<NodeSlots>)
        ensures
            peer@ == self.peer(),
    {
        &self.peer
    }

    pub fn get_peer_epoch(&self) -> (epoch: u64)
        ensures
            epoch == self.peer_epoch(),
    {
        self.peer_epoch
    }

    /// Takes an update of what the peers serve, under the same gate as the
    /// proxy's own topology but with an epoch of its own. The proxy's own
    /// snapshot and epoch stay as they are.
    pub fn set_peer(&mut self, peer: HostDBMap) -> (res: Result<(), DBError>)
        ensures
            final(self).config() == old(self).config(),
            final(self).published() == old(self).published(),
            final(self).replicators() == old(self).replicators(),
            final(self).same_topology(*old(self)),
            res is Ok == accepts(old(self).peer_epoch(), peer.epoch(), peer.flags().force),
            match res {
                Ok(()) => final(self).peer_epoch() == peer.epoch() && node_views(
                    final(self).peer(),
                ) == node_views(peer.nodes()),
                Err(e) => {
                    &&& e == DBError::OldEpoch
                    &&& final(self).peer_epoch() == old(self).peer_epoch()
                    &&& final(self).peer() == old(self).peer()
                },
            },
    {
        if peer.get_epoch() <= self.peer_epoch && !peer.get_flags().force {
            return Err(DBError::OldEpoch);
        }
        self.peer_epoch = peer.get_epoch();
        self.peer = copy_nodes(peer.get_nodes());
        Ok(())
    }

    pub fn get_epoch(&self) -> (epoch: u64)
        ensures
            epoch == self.epoch(),
    {
        self.epoch
    }

    pub fn get_meta_map(&self) -> (meta_map: &MetaMap)
        ensures
            *meta_map == self.meta_map(),
    {
        &self.meta_map
    }

    pub fn get_config(&self) -> (config: &ServerProxyConfig)
        ensures
            *config == self.config(),
    {
        &self.config
    }

    /// A report for an operator: the number of databases, of migrations
    /// and of deletion tasks.
    pub fn info(&self) -> (report: String)
        ensures
            report@ == info_text(
                self.meta_map().db_map().names().len(),
                self.meta_map().migration_map().keys().len(),
                self.meta_map().deleting_task_map().ranges().len(),
            ),
    {
        let mut report = String::from_str("# DB\r\ndbs:");
        let dbs = self.meta_map.db_map.get_dbs();
        assert(dbs@.len() == crate::common::db::texts(dbs@).len());
        report.append(decimal_string(dbs.len() as u64).as_str());
        report.append("\r\n# Migration\r\ntasks:");
        report.append(decimal_string(self.meta_map.migration_map.len() as u64).as_str());
        report.append("\r\ndeleting:");
        report.append(decimal_string(self.meta_map.deleting_task_map.len() as u64).as_str());
        report.append("\r\n");
        report
    }

    /// The names of the databases.
    pub fn get_dbs(&self) -> (names: Vec<String>)
        ensures
            crate::common::db::texts(names@) == self.meta_map().db_map().names(),
    {
        self.meta_map.db_map.get_dbs()
    }

    /// Takes a topology update. One that is no newer than the proxy's epoch
    /// and not forced is refused, and nothing changes. Else the snapshot is
    /// replaced as a whole and the epoch becomes the update's.
    pub fn set_meta(&mut self, db_meta: ProxyDBMeta) -> (res: Result<MetaUpdate, DBError>)
        ensures
            final(self).same_surroundings(*old(self)),
            res is Ok == accepts(old(self).epoch(), db_meta.epoch(), db_meta.flags().force),
            match res {
                Ok(update) => {
                    &&& final(self).epoch() == db_meta.epoch()
                    &&& installs(old(self).meta_map(), db_meta.local(), final(self).meta_map())
                    &&& node_views(final(self).local()) == node_views(db_meta.local())
                    &&& meta_keys(update.new_tasks@) == present(
                        unknown_keys(
                            old(self).meta_map().migration_map().keys(),
                            first_named(topology_tasks(db_meta.local())),
                        ),
                    )
                    &&& update.overlapping == !ranges_disjoint(db_meta.local())
                },
                Err(e) => e == DBError::OldEpoch && final(self).same_topology(*old(self)),
            },
    {
        if db_meta.get_epoch() <= self.epoch && !db_meta.get_flags().force {
            return Err(DBError::OldEpoch);
        }
        let db_map = DatabaseMap::from_db_map(&db_meta);
        let (migration_map, new_tasks) = self.meta_map.migration_map.from_update(
            db_meta.get_local(),
        );
        let deleting_task_map = DeleteKeysTaskMap::from_migrations(&migration_map);
        self.meta_map = MetaMap { db_map, migration_map, deleting_task_map };
        self.publish();
        self.local = copy_nodes(db_meta.get_local());
        self.epoch = db_meta.get_epoch();
        Ok(MetaUpdate { new_tasks, overlapping: has_overlap(db_meta.get_local()) })
    }

    /// Applies a switch command. A range without a tag names no migration;
    /// a migration of an epoch that the proxy has not reached is not ready.
    /// Else the migration that the command names moves to the step asked
    /// for, whichever tag the command carries.
    pub fn handle_switch(&mut self, switch_arg: SwitchArg, sub_cmd: MgrSubCmd) -> (res: Result<
        (),
        SwitchError,
    >)
        ensures
            final(self).same_but_states(*old(self)),
            res == old(self).switched(
                named_by(switch_arg.meta.db_name@, switch_arg.meta.slot_range),
            ),
            final(self).meta_map().migration_map().states() == if res is Ok {
                old(self).meta_map().migration_map().states_after(
                    named_by(switch_arg.meta.db_name@, switch_arg.meta.slot_range),
                    TaskEvent::Switch(sub_cmd),
                )
            } else {
                old(self).meta_map().migration_map().states()
            },
    {
        let SwitchArg { version, meta } = switch_arg;
        let MigrationTaskMeta { db_name, slot_range } = meta;
        let SlotRange { start, end, tag } = slot_range;
        // The map finds a migration by its range and its ends; the command is
        // put in the words of the taking side, whichever side sent it.
        let (arg_epoch, tag) = match tag {
            SlotRangeTag::NoTag => {
                return Err(SwitchError::InvalidArg);
            },
            SlotRangeTag::Migrating(meta) => (meta.epoch, SlotRangeTag::Importing(meta)),
            SlotRangeTag::Importing(meta) => (meta.epoch, SlotRangeTag::Importing(meta)),
        };
        if self.epoch < arg_epoch {
            return Err(SwitchError::NotReady);
        }
        let arg = SwitchArg {
            version,
            meta: MigrationTaskMeta { db_name, slot_range: SlotRange { start, end, tag } },
        };
        let res = self.meta_map.migration_map.handle_switch(&arg, sub_cmd);
        proof {
            // An aborted migration stays aborted: its state is written anew, unchanged.
            let before = old(self).meta_map.migration_map;
            if let Some(named) = named_by(arg.meta.db_name@, arg.meta.slot_range) {
                lemma_position_of(before.keys(), named.key, 0);
                before.lemma_lengths();
            }
            if res is Err {
                assert(self.meta_map.migration_map.states() =~= before.states());
            }
        }
        if res.is_ok() {
            self.publish();
        }
        res
    }

    /// Applies an event of a migration's driver to the migration that `meta`
    /// names, and gives its new state.
    pub fn advance_migration(&mut self, meta: &MigrationTaskMeta, event: TaskEvent) -> (res: Result<
        TaskState,
        SwitchError,
    >)
        ensures
            final(self).same_but_states(*old(self)),
            res == old(self).meta_map().migration_map().advanced(
                named_by(meta.db_name@, meta.slot_range),
                event,
            ),
            final(self).meta_map().migration_map().states() == old(self).meta_map()
                .migration_map().states_after(named_by(meta.db_name@, meta.slot_range), event),
    {
        let res = self.meta_map.migration_map.advance(meta, event);
        if res.is_ok() {
            self.publish();
        }
        res
    }

    /// The state of the migration that `meta` names, if the proxy holds it.
    pub fn migration_state(&self, meta: &MigrationTaskMeta) -> (state: Option<TaskState>)
        ensures
            state == match named_by(meta.db_name@, meta.slot_range) {
                None => None,
                Some(named) => self.meta_map().migration_map().state_of(named.key),
            },
    {
        self.meta_map.migration_map.find_state(meta)
    }

    /// A handle to the cell into which the manager publishes: requests are
    /// routed through it without waiting for the manager.
    pub fn get_published(&self) -> (published: SharedMetaMap)
        ensures
            published == self.published(),
    {
        self.published.share()
    }

    /// The topology of the cluster `db_name` as lines of text: for each of
    /// its backends the address and the ranges it serves, first the proxy's
    /// own backends, then those of its peers.
    pub fn gen_cluster_nodes(&self, db_name: String) -> (text: String)
        ensures
            text@ == cluster_lines(node_views(self.local()), db_name@, self.local().len() as int)
                + cluster_lines(node_views(self.peer()), db_name@, self.peer().len() as int),
    {
        let mut text = String::new();
        push_cluster_lines(&mut text, &self.local, &db_name);
        push_cluster_lines(&mut text, &self.peer, &db_name);
        assert(text@ =~= cluster_lines(
            node_views(self.local()),
            db_name@,
            self.local().len() as int,
        ) + cluster_lines(node_views(self.peer()), db_name@, self.peer().len() as int));
        text
    }

    /// The topology of the cluster `db_name` as a reply: an entry for each
    /// range that a backend of the cluster serves, first the proxy's own
    /// backends, then those of its peers. An error where neither the proxy
    /// nor its peers have a backend of the cluster.
    pub fn gen_cluster_slots(&self, db_name: String) -> (res: Result<Vec<Resp>, String>)
        ensures
            match res {
                Ok(entries) => (names_cluster(self.local(), db_name@) || names_cluster(
                    self.peer(),
                    db_name@,
                )) && model_of_items(entries@) == cluster_entries(
                    node_views(self.local()),
                    db_name@,
                    self.local().len() as int,
                ) + cluster_entries(node_views(self.peer()), db_name@, self.peer().len() as int),
                Err(reason) => !names_cluster(self.local(), db_name@) && !names_cluster(
                    self.peer(),
                    db_name@,
                ) && reason@ == "Err db not found"@,
            },
    {
        if !has_cluster(&self.local, &db_name) && !has_cluster(&self.peer, &db_name) {
            return Err(String::from_str("Err db not found"));
        }
        let mut entries: Vec<Resp> = Vec::new();
        assert(model_of_items(entries@) =~= Seq::<RespValue>::empty());
        push_cluster_slots(&mut entries, &self.local, &db_name);
        push_cluster_slots(&mut entries, &self.peer, &db_name);
        assert(model_of_items(entries@) =~= cluster_entries(
            node_views(self.local()),
            db_name@,
            self.local().len() as int,
        ) + cluster_entries(node_views(self.peer()), db_name@, self.peer().len() as int));
        Ok(entries)
    }

    /// Replaces the replication metadata where the update is newer than
    /// what is kept, or forced.
    pub fn update_replicators(&mut self, meta: ReplicatorMeta) -> (res: Result<(), DBError>)
        ensures
            final(self).config() == old(self).config(),
            final(self).published() == old(self).published(),
            final(self).peer() == old(self).peer(),
            final(self).peer_epoch() == old(self).peer_epoch(),
            final(self).same_topology(*old(self)),
            res is Ok == accepts(old(self).replicators().epoch(), meta.epoch, meta.flags.force),
            match res {
                Ok(()) => {
                    &&& final(self).replicators().epoch() == meta.epoch
                    &&& final(self).replicators().masters() == meta.masters@
                    &&& final(self).replicators().replicas() == meta.replicas@
                },
                Err(e) => {
                    &&& e == DBError::OldEpoch
                    &&& final(self).replicators() == old(self).replicators()
                },
            },
    {
        self.replicator_manager.update_replicators(meta)
    }

    /// A report on replication for an operator.
    pub fn get_replication_info(&self) -> (report: String)
        ensures
            report@ == replication_report(
                self.replicators().epoch() as nat,
                self.replicators().masters().len(),
                self.replicators().replicas().len(),
            ),
    {
        self.replicator_manager.get_metadata_report()
    }

    /// The migrations that are committed.
    pub fn get_finished_migration_tasks(&self) -> (metas: Vec<MigrationTaskMeta>)
        ensures
            meta_keys(metas@) == present(
                crate::migration::manager::finished_keys(
                    self.meta_map().migration_map().keys(),
                    self.meta_map().migration_map().states(),
                    self.meta_map().migration_map().keys().len() as int,
                ),
            ),
    {
        self.meta_map.migration_map.get_finished_tasks()
    }

    /// Finds the backend for `cmd_ctx` in the proxy's snapshot.
    pub fn send(&self, cmd_ctx: CmdCtx) -> (res: Result<Forward, DBSendError>)
        ensures
            routed(self.meta_map(), cmd_ctx, res),
    {
        route_cmd_ctx(&self.meta_map, cmd_ctx)
    }

    /// Gives a request that is on the default database the only database of
    /// the proxy, where there is exactly one. Any other request stays as it
    /// is.
    pub fn try_select_db(&self, cmd_ctx: CmdCtx) -> (res: CmdCtx)
        ensures
            res.command() == cmd_ctx.command(),
            res.ticket() == cmd_ctx.ticket(),
            res.written() == cmd_ctx.written(),
            res.db_name() == self.meta_map().selected_db(cmd_ctx.db_name()),
    {
        self.meta_map.try_select_db(cmd_ctx)
    }

    /// A copy of the snapshot that the manager routes by: what it publishes.
    pub fn snapshot(&self) -> (snapshot: MetaMap)
        ensures
            snapshot.same_as(self.meta_map()),
    {
        self.meta_map.duplicate()
    }

    /// Puts a copy of the snapshot into the cell from which requests are
    /// routed.
    fn publish(&self) {
        self.published.store(self.snapshot());
    }
}

/// A committed migration stays committed over a topology update that names
/// it: an accepted update that still holds the migration holds it in the
/// state that it had.
pub proof fn law_committed_survives_update(
    old: MetaMap,
    local: Seq<NodeSlots>,
    new: MetaMap,
    key: TaskKey,
)
    requires
        installs(old, local, new),
        old.migration_map().state_of(key) is Some,
        committed(old.migration_map().state_of(key)->0),
        new.migration_map().state_of(key) is Some,
    ensures
        new.migration_map().state_of(key) == old.migration_map().state_of(key),
{
    let keys = new.migration_map().keys();
    let named = first_named(topology_tasks(local));
    let at = position_of(keys, key, 0);
    lemma_position_of(keys, key, 0);
    new.migration_map().lemma_lengths();
    assert(named[at].key == keys[at]);
    assert(new.migration_map().states()[at] == old.migration_map().carried_state(named[at]));
}

/// Whether two ranges have a slot in common.
pub open spec fn ranges_meet(first: SlotRange, second: SlotRange) -> bool {
    first.start < first.end && second.start < second.end && first.start < second.end
        && second.start < first.end
}

/// Whether range `j` of entry `i` and range `l` of entry `k` are two ranges
/// of one cluster with a slot in common.
pub open spec fn clash(local: Seq<NodeSlots>, i: int, j: int, k: int, l: int) -> bool {
    &&& 0 <= i < local.len()
    &&& 0 <= j < local[i].slot_ranges@.len()
    &&& 0 <= k < local.len()
    &&& 0 <= l < local[k].slot_ranges@.len()
    &&& (i != k || j != l)
    &&& local[i].cluster_name@ == local[k].cluster_name@
    &&& ranges_meet(local[i].slot_ranges@[j], local[k].slot_ranges@[l])
}

/// Whether no two ranges of one cluster in `local` have a slot in common.
pub open spec fn ranges_disjoint(local: Seq<NodeSlots>) -> bool {
    forall|i: int, j: int, k: int, l: int| !#[trigger] clash(local, i, j, k, l)
}

/// Whether two ranges of one cluster in `local` have a slot in common. Such
/// a topology is taken all the same, and the later range has the slot; the
/// caller may wish to tell someone.
pub fn has_overlap(local: &Vec<NodeSlots>) -> (res: bool)
    ensures
        res == !ranges_disjoint(local@),
{
    let mut i: usize = 0;
    while i < local.len()
        invariant
            i <= local.len(),
            forall|a: int, b: int, c: int, d: int| a < i ==> !#[trigger] clash(local@, a, b, c, d),
        decreases local.len() - i,
    {
        let mut j: usize = 0;
        while j < local[i].slot_ranges.len()
            invariant
                i < local.len(),
                j <= local[i as int].slot_ranges@.len(),
                forall|a: int, b: int, c: int, d: int|
                    a < i ==> !#[trigger] clash(local@, a, b, c, d),
                forall|b: int, c: int, d: int| b < j ==> !#[trigger] clash(local@, i as int, b, c, d),
            decreases local[i as int].slot_ranges@.len() - j,
        {
            let first = &local[i].slot_ranges[j];
            let mut k: usize = 0;
            while k < local.len()
                invariant
                    i < local.len(),
                    j < local[i as int].slot_ranges@.len(),
                    k <= local.len(),
                    first == &local[i as int].slot_ranges@[j as int],
                    forall|c: int, d: int|
                        c < k ==> !#[trigger] clash(local@, i as int, j as int, c, d),
                decreases local.len() - k,
            {
                if local[i].cluster_name == local[k].cluster_name {
                    let mut l: usize = 0;
                    while l < local[k].slot_ranges.len()
                        invariant
                            i < local.len(),
                            j < local[i as int].slot_ranges@.len(),
                            k < local.len(),
                            l <= local[k as int].slot_ranges@.len(),
                            first == &local[i as int].slot_ranges@[j as int],
                            local[i as int].cluster_name@ == local[k as int].cluster_name@,
                            forall|d: int|
                                d < l ==> !#[trigger] clash(local@, i as int, j as int, k as int, d),
                        decreases local[k as int].slot_ranges@.len() - l,
                    {
                        let second = &local[k].slot_ranges[l];
                        if (i != k || j != l) && first.start < first.end && second.start
                            < second.end && first.start < second.end && second.start < first.end {
                            assert(clash(local@, i as int, j as int, k as int, l as int));
                            return true;
                        }
                        l += 1;
                    }
                }
                k += 1;
            }
            j += 1;
        }
        i += 1;
    }
    false
}

/// Two ranges that hold the same slot have a slot in common.
pub proof fn lemma_covering_ranges_meet(first: SlotRange, second: SlotRange, slot: int)
    requires
        range_covers(first, slot),
        range_covers(second, slot),
    ensures
        ranges_meet(first, second),
{
}

/// A slot that the database map gives to a backend is held by an untagged
/// range of the cluster.
pub proof fn lemma_served_by_untagged(local: Seq<NodeSlots>, db: Seq<char>, slot: int)
    requires
        served_owner(local, db, slot) is Some,
    ensures
        exists|i: int, j: int|
            0 <= i < local.len() && 0 <= j < local[i].slot_ranges@.len() && local[i].cluster_name@
                == db && local[i].slot_ranges@[j].tag is NoTag && #[trigger] range_covers(
                local[i].slot_ranges@[j],
                slot,
            ),
    decreases local.len(),
{
    let last = local.len() - 1;
    if local[last].cluster_name@ == db && plainly_covered(local[last].slot_ranges@, slot) {
        let j = choose|j: int|
            0 <= j < local[last].slot_ranges@.len() && (#[trigger] local[last].slot_ranges@[j]).tag
                is NoTag && range_covers(local[last].slot_ranges@[j], slot);
        assert(range_covers(local[last].slot_ranges@[j], slot));
    } else {
        lemma_served_by_untagged(local.drop_last(), db, slot);
        let (i, j) = choose|i: int, j: int|
            0 <= i < local.drop_last().len() && 0 <= j < local.drop_last()[i].slot_ranges@.len()
                && local.drop_last()[i].cluster_name@ == db
                && local.drop_last()[i].slot_ranges@[j].tag is NoTag && #[trigger] range_covers(
                local.drop_last()[i].slot_ranges@[j],
                slot,
            );
        assert(range_covers(local[i].slot_ranges@[j], slot));
    }
}

/// A migration that ranges name is named by one of them.
pub proof fn lemma_range_task_source(db: Seq<char>, ranges: Seq<SlotRange>, at: int)
    requires
        0 <= at < range_tasks(db, ranges).len(),
    ensures
        exists|j: int|
            0 <= j < ranges.len() && #[trigger] named_by(db, ranges[j]) == Some(
                range_tasks(db, ranges)[at],
            ),
    decreases ranges.len(),
{
    let rest = range_tasks(db, ranges.drop_last());
    if named_by(db, ranges.last()) is Some && at == rest.len() {
        assert(named_by(db, ranges[ranges.len() - 1]) == Some(range_tasks(db, ranges)[at]));
    } else {
        lemma_range_task_source(db, ranges.drop_last(), at);
        let j = choose|j: int|
            0 <= j < ranges.drop_last().len() && #[trigger] named_by(db, ranges.drop_last()[j])
                == Some(rest[at]);
        assert(named_by(db, ranges[j]) == Some(range_tasks(db, ranges)[at]));
    }
}

/// A migration that a topology names is named by one of its ranges.
pub proof fn lemma_topology_task_source(local: Seq<NodeSlots>, at: int)
    requires
        0 <= at < topology_tasks(local).len(),
    ensures
        exists|i: int, j: int|
            0 <= i < local.len() && 0 <= j < local[i].slot_ranges@.len() && #[trigger] named_by(
                local[i].cluster_name@,
                local[i].slot_ranges@[j],
            ) == Some(topology_tasks(local)[at]),
    decreases local.len(),
{
    let rest = topology_tasks(local.drop_last());
    let last = local.len() - 1;
    if at < rest.len() {
        lemma_topology_task_source(local.drop_last(), at);
        let (i, j) = choose|i: int, j: int|
            0 <= i < local.drop_last().len() && 0 <= j < local.drop_last()[i].slot_ranges@.len()
                && #[trigger] named_by(
                local.drop_last()[i].cluster_name@,
                local.drop_last()[i].slot_ranges@[j],
            ) == Some(rest[at]);
        assert(named_by(local[i].cluster_name@, local[i].slot_ranges@[j]) == Some(
            topology_tasks(local)[at],
        ));
    } else {
        lemma_range_task_source(local[last].cluster_name@, local[last].slot_ranges@, at - rest.len());
        let j = choose|j: int|
            0 <= j < local[last].slot_ranges@.len() && #[trigger] named_by(
                local[last].cluster_name@,
                local[last].slot_ranges@[j],
            ) == Some(
                range_tasks(local[last].cluster_name@, local[last].slot_ranges@)[at - rest.len()],
            );
        assert(named_by(local[last].cluster_name@, local[last].slot_ranges@[j]) == Some(
            topology_tasks(local)[at],
        ));
    }
}

/// Each of the migrations that are first named is one of those named.
pub proof fn lemma_first_named_source(tasks: Seq<NamedTask>, at: int)
    requires
        0 <= at < first_named(tasks).len(),
    ensures
        exists|k: int| 0 <= k < tasks.len() && #[trigger] tasks[k] == first_named(tasks)[at],
    decreases tasks.len(),
{
    let rest = first_named(tasks.drop_last());
    if at < rest.len() {
        lemma_first_named_source(tasks.drop_last(), at);
        let k = choose|k: int|
            0 <= k < tasks.drop_last().len() && #[trigger] tasks.drop_last()[k] == rest[at];
        assert(tasks[k] == first_named(tasks)[at]);
    } else {
        assert(tasks[tasks.len() - 1] == first_named(tasks)[at]);
    }
}

/// Ownership is in one map or the other: where no two ranges of a cluster
/// overlap, a slot that the database map of an installed snapshot gives to a
/// backend is held by no migration of that snapshot.
pub proof fn law_owned_or_migrating(
    old: MetaMap,
    local: Seq<NodeSlots>,
    new: MetaMap,
    db: Seq<char>,
    slot: int,
)
    requires
        installs(old, local, new),
        ranges_disjoint(local),
    ensures
        !(new.db_map().owner(db, slot) is Some && new.migration_map().route(db, slot) is Some),
{
    if new.db_map().owner(db, slot) is Some && new.migration_map().route(db, slot) is Some {
        assert(new.db_map().owner(db, slot) == served_owner(local, db, slot));
        lemma_served_by_untagged(local, db, slot);
        let (i, j) = choose|i: int, j: int|
            0 <= i < local.len() && 0 <= j < local[i].slot_ranges@.len() && local[i].cluster_name@
                == db && local[i].slot_ranges@[j].tag is NoTag && #[trigger] range_covers(
                local[i].slot_ranges@[j],
                slot,
            );
        let keys = new.migration_map().keys();
        let named = first_named(topology_tasks(local));
        let at = cover_position(keys, db, slot, 0);
        lemma_cover_position(keys, db, slot, 0);
        assert(keys[at] == named[at].key);
        lemma_first_named_source(topology_tasks(local), at);
        let t = choose|t: int|
            0 <= t < topology_tasks(local).len() && #[trigger] topology_tasks(local)[t]
                == named[at];
        lemma_topology_task_source(local, t);
        let (k, l) = choose|k: int, l: int|
            0 <= k < local.len() && 0 <= l < local[k].slot_ranges@.len() && #[trigger] named_by(
                local[k].cluster_name@,
                local[k].slot_ranges@[l],
            ) == Some(topology_tasks(local)[t]);
        assert(range_covers(local[k].slot_ranges@[l], slot));
        assert(local[k].cluster_name@ == db);
        assert(!(local[k].slot_ranges@[l].tag is NoTag));
        lemma_covering_ranges_meet(local[i].slot_ranges@[j], local[k].slot_ranges@[l], slot);
        assert(clash(local, i, j, k, l));
    }
}

/// The epoch after a run of updates, each given by its epoch and whether it
/// is forced: an accepted update sets the epoch, a refused one leaves it.
pub open spec fn epoch_after(current: u64, updates: Seq<(u64, bool)>) -> u64
    decreases updates.len(),
{
    if updates.len() == 0 {
        current
    } else {
        let before = epoch_after(current, updates.drop_last());
        if accepts(before, updates.last().0, updates.last().1) {
            updates.last().0
        } else {
            before
        }
    }
}

/// Epochs are monotonic: over a run of updates of which none is forced, the
/// epoch never falls, and each accepted update raises it.
pub proof fn law_epoch_is_monotonic(current: u64, updates: Seq<(u64, bool)>)
    requires
        forall|i: int| 0 <= i < updates.len() ==> !(#[trigger] updates[i]).1,
    ensures
        epoch_after(current, updates) >= current,
        updates.len() > 0 ==> epoch_after(current, updates) >= epoch_after(
            current,
            updates.drop_last(),
        ),
        updates.len() > 0 && accepts(
            epoch_after(current, updates.drop_last()),
            updates.last().0,
            updates.last().1,
        ) ==> epoch_after(current, updates) > epoch_after(current, updates.drop_last()),
    decreases updates.len(),
{
    if updates.len() > 0 {
        assert(!updates[updates.len() - 1].1);
        assert forall|i: int| 0 <= i < updates.drop_last().len() implies !(
        #[trigger] updates.drop_last()[i]).1 by {
            assert(!updates[i].1);
        }
        law_epoch_is_monotonic(current, updates.drop_last());
    }
}

} // verus!
