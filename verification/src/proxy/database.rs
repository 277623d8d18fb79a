//! The database map: for each cluster the slots that its backends own.

use super::session::CmdCtx;
use super::slot::{
    key_slot, last_range_owner, plain_ranges, plainly_covered, slot_of_key, SlotMap,
    SlotRange, SLOT_NUM,
};
use crate::common::db::{texts, NodeSlots, ProxyDBMeta};
use crate::protocol::resp::RespValue;
use crate::proxy::command::{ascii_bytes, command_key, error_resp};
use crate::protocol::resp::Resp;
use crate::common::search::{lemma_position_is, lemma_position_of, position_of};
use vstd::prelude::*;
use vstd::string::*;

verus! {

/// Why a topology update was not taken.
#[derive(Debug, Clone, Copy, PartialEq, Eq, Structural)]
pub enum DBError {
    /// The update is no newer than what the proxy has, and is not forced.
    OldEpoch,
}

/// Why a request was not handed to a backend. The request comes back.
#[derive(Debug)]
pub enum DBSendError {
    /// The proxy knows no cluster of the request's database name.
    DBNotFound(CmdCtx),
    /// No backend owns the slot of the request's key.
    SlotNotFound(CmdCtx),
    /// The command has no key to route it by.
    MissingKey(CmdCtx),
    /// The queue of the backend is full.
    Busy(CmdCtx),
}

/// The text that tells why a topology update was not taken.
pub open spec fn db_error_text(e: DBError) -> Seq<char> {
    match e {
        DBError::OldEpoch => "Err old epoch"@,
    }
}

/// The reply that tells why a topology update was not taken.
pub fn db_error_resp(e: DBError) -> (resp: Resp)
    ensures
        resp@ == RespValue::Error(ascii_bytes(db_error_text(e))),
{
    proof {
        reveal_strlit("Err old epoch");
    }
    match e {
        DBError::OldEpoch => error_resp("Err old epoch"),
    }
}

impl DBSendError {
    /// The request that came back.
    pub open spec fn cmd_ctx(&self) -> CmdCtx {
        match self {
            DBSendError::DBNotFound(ctx) => *ctx,
            DBSendError::SlotNotFound(ctx) => *ctx,
            DBSendError::MissingKey(ctx) => *ctx,
            DBSendError::Busy(ctx) => *ctx,
        }
    }

    /// The text that tells the client why its request went nowhere.
    pub open spec fn text(&self) -> Seq<char> {
        match self {
            DBSendError::DBNotFound(_) => "Err db not found"@,
            DBSendError::SlotNotFound(_) => "Err slot not served"@,
            DBSendError::MissingKey(_) => "Err missing key"@,
            DBSendError::Busy(_) => "Err backend busy"@,
        }
    }

    /// The request with the error as its reply, unless it has a reply.
    pub fn into_cmd_ctx(self) -> (ctx: CmdCtx)
        ensures
            ctx.db_name() == self.cmd_ctx().db_name(),
            ctx.command() == self.cmd_ctx().command(),
            ctx.ticket() == self.cmd_ctx().ticket(),
            ctx.written() == match self.cmd_ctx().written() {
                Some(reply) => Some(reply),
                None => Some(Ok(RespValue::Error(ascii_bytes(self.text())))),
            },
    {
        proof {
            reveal_strlit("Err db not found");
            reveal_strlit("Err slot not served");
            reveal_strlit("Err missing key");
            reveal_strlit("Err backend busy");
        }
        let (mut ctx, reply) = match self {
            DBSendError::DBNotFound(ctx) => (ctx, error_resp("Err db not found")),
            DBSendError::SlotNotFound(ctx) => (ctx, error_resp("Err slot not served")),
            DBSendError::MissingKey(ctx) => (ctx, error_resp("Err missing key")),
            DBSendError::Busy(ctx) => (ctx, error_resp("Err backend busy")),
        };
        ctx.set_result(Ok(reply));
        ctx
    }
}

/// A request and the backend that it goes to.
#[derive(Debug)]
pub struct Forward {
    pub address: String,
    pub cmd_ctx: CmdCtx,
}

/// Where a command goes, or why it goes nowhere.
pub enum Route {
    Backend(Seq<char>),
    DBNotFound,
    MissingKey,
    SlotNotFound,
}

/// Whether `nodes` has an entry for the cluster `db`.
pub open spec fn names_cluster(nodes: Seq<NodeSlots>, db: Seq<char>) -> bool {
    exists|i: int| 0 <= i < nodes.len() && (#[trigger] nodes[i]).cluster_name@ == db
}

/// The backend of cluster `db` that serves `slot`: the last entry of the
/// cluster with an untagged range that holds the slot.
pub open spec fn served_owner(nodes: Seq<NodeSlots>, db: Seq<char>, slot: int) -> Option<Seq<char>>
    decreases nodes.len(),
{
    if nodes.len() == 0 || slot < 0 || slot >= SLOT_NUM {
        None
    } else if nodes.last().cluster_name@ == db && plainly_covered(nodes.last().slot_ranges@, slot) {
        Some(nodes.last().address@)
    } else {
        served_owner(nodes.drop_last(), db, slot)
    }
}

/// One cluster: its name and its slot map.
pub struct Database {
    name: String,
    slot_map: SlotMap,
}

/// A cluster without an entry has no backend for any slot.
pub proof fn lemma_unnamed_cluster_serves_nothing(nodes: Seq<NodeSlots>, db: Seq<char>, slot: int)
    requires
        !names_cluster(nodes, db),
    ensures
        served_owner(nodes, db, slot) is None,
    decreases nodes.len(),
{
    if nodes.len() > 0 {
        assert(nodes[nodes.len() - 1].cluster_name@ != db);
        assert forall|i: int| 0 <= i < nodes.drop_last().len() implies (
        #[trigger] nodes.drop_last()[i]).cluster_name@ != db by {
            assert(nodes[i].cluster_name@ != db);
        }
        lemma_unnamed_cluster_serves_nothing(nodes.drop_last(), db, slot);
    }
}

/// The backends of the cluster `db` with their untagged ranges, in the
/// order of `nodes`.
fn cluster_ranges(nodes: &Vec<NodeSlots>, db: &String) -> (entries: Vec<(String, Vec<SlotRange>)>)
    ensures
        forall|slot: int| last_range_owner(entries@, slot) == served_owner(nodes@, db@, slot),
{
    let mut entries: Vec<(String, Vec<SlotRange>)> = Vec::new();
    let mut j: usize = 0;
    while j < nodes.len()
        invariant
            j <= nodes.len(),
            forall|slot: int|
                last_range_owner(entries@, slot) == served_owner(nodes@.take(j as int), db@, slot),
        decreases nodes.len() - j,
    {
        let ghost before = entries@;
        let ghost seen = nodes@.take(j as int);
        let ghost next = nodes@.take(j + 1);
        proof {
            assert(next.drop_last() =~= seen);
            assert(next.last() == nodes[j as int]);
        }
        if nodes[j].cluster_name == *db {
            let ranges = plain_ranges(&nodes[j].slot_ranges);
            entries.push((nodes[j].address.clone(), ranges));
            proof {
                assert(entries@.drop_last() =~= before);
                assert forall|slot: int|
                    last_range_owner(entries@, slot) == served_owner(next, db@, slot) by {
                    assert(last_range_owner(before, slot) == served_owner(seen, db@, slot));
                }
            }
        } else {
            proof {
                assert forall|slot: int|
                    last_range_owner(entries@, slot) == served_owner(next, db@, slot) by {
                    assert(last_range_owner(before, slot) == served_owner(seen, db@, slot));
                }
            }
        }
        j += 1;
    }
    assert(nodes@.take(j as int) =~= nodes@);
    entries
}

/// For each cluster that the proxy serves, the slots that its backends own.
pub struct DatabaseMap {
    dbs: Vec<Database>,
}

impl DatabaseMap {
    /// The names of the databases, in order.
    pub closed spec fn names(&self) -> Seq<Seq<char>> {
        Seq::new(self.dbs@.len(), |i: int| self.dbs@[i].name@)
    }

    /// Whether the map has a database named `db`.
    pub open spec fn has_db(&self, db: Seq<char>) -> bool {
        self.names().contains(db)
    }

    /// The backend that owns `slot` in the database `db`; `None` where there
    /// is no such database.
    pub closed spec fn owner(&self, db: Seq<char>, slot: int) -> Option<Seq<char>> {
        let at = position_of(self.names(), db, 0);
        if at < self.dbs@.len() {
            self.dbs@[at].slot_map.owner(slot)
        } else {
            None
        }
    }

    /// Where a command for the database `db` goes.
    pub open spec fn route_of(&self, db: Seq<char>, command: RespValue) -> Route {
        if !self.has_db(db) {
            Route::DBNotFound
        } else {
            match command_key(command) {
                None => Route::MissingKey,
                Some(key) => match self.owner(db, key_slot(key)) {
                    Some(address) => Route::Backend(address),
                    None => Route::SlotNotFound,
                },
            }
        }
    }

    /// A map without databases.
    pub fn new() -> (map: DatabaseMap)
        ensures
            forall|db: Seq<char>| !map.has_db(db),
            forall|db: Seq<char>, slot: int| map.owner(db, slot) is None,
    {
        let map = DatabaseMap { dbs: Vec::new() };
        assert(map.names() =~= Seq::<Seq<char>>::empty());
        map
    }

    /// The map of a topology: a database for each cluster that the proxy's
    /// own part names, whose slots go to the backends with an untagged range
    /// for them. Ranges under migration are not owned here.
    pub fn from_db_map(db_meta: &ProxyDBMeta) -> (map: DatabaseMap)
        ensures
            forall|db: Seq<char>| map.has_db(db) <==> names_cluster(db_meta.local(), db),
            forall|db: Seq<char>, slot: int|
                map.owner(db, slot) == served_owner(db_meta.local(), db, slot),
    {
        let nodes = db_meta.get_local();
        let mut map = DatabaseMap { dbs: Vec::new() };
        assert(map.names() =~= Seq::<Seq<char>>::empty());
        let mut i: usize = 0;
        while i < nodes.len()
            invariant
                i <= nodes.len(),
                forall|db: Seq<char>|
                    map.has_db(db) <==> names_cluster(nodes@.take(i as int), db),
                forall|k: int, slot: int|
                    0 <= k < map.dbs@.len() ==> #[trigger] map.dbs@[k].slot_map.owner(slot)
                        == served_owner(nodes@, map.dbs@[k].name@, slot),
            decreases nodes.len() - i,
        {
            let ghost old_map = map;
            let ghost old_names = map.names();
            let ghost seen = nodes@.take(i as int);
            let ghost next = nodes@.take(i + 1);
            let at = map.position(&nodes[i].cluster_name);
            if at >= map.dbs.len() {
                let entries = cluster_ranges(nodes, &nodes[i].cluster_name);
                let slot_map = SlotMap::from_ranges(entries);
                map.dbs.push(Database { name: nodes[i].cluster_name.clone(), slot_map });
                assert(map.names() =~= old_names.push(nodes[i as int].cluster_name@));
            }
            proof {
                let name = nodes[i as int].cluster_name@;
                assert forall|db: Seq<char>| map.has_db(db) <==> names_cluster(next, db) by {
                    assert(old_map.has_db(db) <==> names_cluster(seen, db));
                    if names_cluster(seen, db) {
                        let k = choose|k: int|
                            0 <= k < seen.len() && (#[trigger] seen[k]).cluster_name@ == db;
                        assert(next[k].cluster_name@ == db);
                    }
                    if db == name {
                        assert(next[i as int].cluster_name@ == db);
                    }
                    if names_cluster(next, db) && db != name {
                        let k = choose|k: int|
                            0 <= k < next.len() && (#[trigger] next[k]).cluster_name@ == db;
                        assert(seen[k].cluster_name@ == db);
                    }
                    if old_names.contains(db) {
                        let k = choose|k: int| 0 <= k < old_names.len() && old_names[k] == db;
                        assert(map.names()[k] == db);
                    }
                    if map.names().contains(db) && db != name {
                        let k = choose|k: int| 0 <= k < map.names().len() && map.names()[k] == db;
                        assert(old_names[k] == db);
                    }
                    if db == name && at >= old_names.len() {
                        assert(map.names()[old_names.len() as int] == db);
                    }
                }
            }
            i += 1;
        }
        proof {
            assert(nodes@.take(i as int) =~= nodes@);
            assert forall|db: Seq<char>, slot: int|
                map.owner(db, slot) == served_owner(nodes@, db, slot) by {
                let at = position_of(map.names(), db, 0);
                lemma_position_of(map.names(), db, 0);
                if at < map.dbs@.len() {
                    assert(map.names()[at] == db);
                    assert(map.dbs@[at].slot_map.owner(slot) == served_owner(
                        nodes@,
                        map.dbs@[at].name@,
                        slot,
                    ));
                } else {
                    assert(map.has_db(db) <==> names_cluster(nodes@, db));
                    lemma_unnamed_cluster_serves_nothing(nodes@, db, slot);
                }
            }
        }
        map
    }

    /// A copy of the map.
    pub fn duplicate(&self) -> (copy: DatabaseMap)
        ensures
            copy.names() == self.names(),
            forall|db: Seq<char>, slot: int| copy.owner(db, slot) == self.owner(db, slot),
    {
        let mut copy = DatabaseMap { dbs: Vec::new() };
        let mut i: usize = 0;
        while i < self.dbs.len()
            invariant
                i <= self.dbs.len(),
                copy.dbs@.len() == i,
                forall|k: int|
                    0 <= k < i ==> (#[trigger] copy.dbs@[k]).name@ == self.dbs@[k].name@,
                forall|k: int, slot: int|
                    0 <= k < i ==> #[trigger] copy.dbs@[k].slot_map.owner(slot)
                        == self.dbs@[k].slot_map.owner(slot),
            decreases self.dbs.len() - i,
        {
            copy.dbs.push(
                Database { name: self.dbs[i].name.clone(), slot_map: self.dbs[i].slot_map.duplicate() },
            );
            i += 1;
        }
        assert(copy.names() =~= self.names());
        assert forall|db: Seq<char>, slot: int| copy.owner(db, slot) == self.owner(db, slot) by {
            let at = position_of(self.names(), db, 0);
            lemma_position_of(self.names(), db, 0);
            if at < self.dbs@.len() {
                assert(copy.dbs@[at].slot_map.owner(slot) == self.dbs@[at].slot_map.owner(slot));
            }
        }
        copy
    }

    /// The names of the databases.
    pub fn get_dbs(&self) -> (names: Vec<String>)
        ensures
            texts(names@) == self.names(),
    {
        let mut names: Vec<String> = Vec::new();
        let mut i: usize = 0;
        while i < self.dbs.len()
            invariant
                i <= self.dbs.len(),
                texts(names@) == self.names().take(i as int),
            decreases self.dbs.len() - i,
        {
            let ghost before = texts(names@);
            names.push(self.dbs[i].name.clone());
            assert(texts(names@) =~= before.push(self.dbs@[i as int].name@));
            assert(self.names().take(i + 1) =~= before.push(self.dbs@[i as int].name@));
            i += 1;
        }
        assert(self.names().take(i as int) =~= self.names());
        names
    }

    /// The database for a client that selected none: the only one, where
    /// there is exactly one.
    pub fn auto_select_db(&self) -> (name: Option<String>)
        ensures
            match name {
                Some(n) => self.names() == seq![n@],
                None => self.names().len() != 1,
            },
    {
        if self.dbs.len() == 1 {
            let name = self.dbs[0].name.clone();
            assert(self.names() =~= seq![name@]);
            Some(name)
        } else {
            None
        }
    }

    /// Finds the backend for `cmd_ctx`: the owner of the slot of the
    /// command's key in the request's database. The request goes along; where
    /// there is no backend it comes back with the reason.
    pub fn send(&self, cmd_ctx: CmdCtx) -> (res: Result<Forward, DBSendError>)
        ensures
            match self.route_of(cmd_ctx.db_name(), cmd_ctx.command()) {
                Route::Backend(address) => res matches Ok(forward) && forward.address@ == address
                    && forward.cmd_ctx == cmd_ctx,
                Route::DBNotFound => res matches Err(DBSendError::DBNotFound(ctx)) && ctx
                    == cmd_ctx,
                Route::MissingKey => res matches Err(DBSendError::MissingKey(ctx)) && ctx
                    == cmd_ctx,
                Route::SlotNotFound => res matches Err(DBSendError::SlotNotFound(ctx)) && ctx
                    == cmd_ctx,
            },
    {
        let name = cmd_ctx.get_db_name();
        let at = self.position(&name);
        if at >= self.dbs.len() {
            return Err(DBSendError::DBNotFound(cmd_ctx));
        }
        let slot = match cmd_ctx.get_cmd().get_key() {
            Some(key) => slot_of_key(key.as_slice()),
            None => {
                return Err(DBSendError::MissingKey(cmd_ctx));
            },
        };
        match self.dbs[at].slot_map.get(slot) {
            Some(address) => Ok(Forward { address, cmd_ctx }),
            None => Err(DBSendError::SlotNotFound(cmd_ctx)),
        }
    }

    /// The position of the database named `name`.
    fn position(&self, name: &String) -> (at: usize)
        ensures
            at == position_of(self.names(), name@, 0),
            at <= self.dbs@.len(),
            at < self.dbs@.len() <==> self.has_db(name@),
    {
        let mut at: usize = 0;
        while at < self.dbs.len() && !(self.dbs[at].name == *name)
            invariant
                at <= self.dbs.len(),
                forall|i: int| 0 <= i < at ==> self.names()[i] != name@,
            decreases self.dbs.len() - at,
        {
            at += 1;
        }
        proof {
            lemma_position_is(self.names(), name@, 0, at as int);
            if at < self.dbs.len() {
                assert(self.names()[at as int] == name@);
            }
        }
        at
    }
}

} // verus!
