//! The migration map: the migrations that a proxy holds, found by the range
//! and the two ends that name them.

use super::task::{
    committed, initial_state, is_committed, next_state, state_after, ImportingState, MgrSubCmd,
    MigratingState, SwitchArg, SwitchError, TaskEvent, TaskState,
};
use crate::common::cluster::MigrationTaskMeta;
use crate::common::db::NodeSlots;
use crate::proxy::command::command_key;
use crate::proxy::database::{DBSendError, Forward};
use crate::proxy::session::CmdCtx;
use crate::proxy::slot::{key_slot, slot_of_key, MigrationMeta, SlotRange, SlotRangeTag};
use crate::common::search::{lemma_position_is, lemma_position_of, position_of};
use vstd::prelude::*;

verus! {

/// What names a migration: the cluster, the range, the epoch in which it was
/// set up, and its two ends. The tag that a range carries for it, migrating
/// or importing, is no part of the name: both ends speak of one migration.
pub struct TaskKey {
    pub db: Seq<char>,
    pub start: int,
    pub end: int,
    pub epoch: int,
    pub src: Seq<char>,
    pub dst: Seq<char>,
}

/// A migration as a topology names it: its name, and the side that the
/// range's tag gives.
pub struct NamedTask {
    pub key: TaskKey,
    pub importing: bool,
}

/// The migration that a range of the cluster `db` names, if it has a tag.
pub open spec fn named_by(db: Seq<char>, range: SlotRange) -> Option<NamedTask> {
    match range.tag {
        SlotRangeTag::NoTag => None,
        SlotRangeTag::Migrating(meta) => Some(
            NamedTask {
                key: TaskKey {
                    db,
                    start: range.start as int,
                    end: range.end as int,
                    epoch: meta.epoch as int,
                    src: meta.src_node_address@,
                    dst: meta.dst_node_address@,
                },
                importing: false,
            },
        ),
        SlotRangeTag::Importing(meta) => Some(
            NamedTask {
                key: TaskKey {
                    db,
                    start: range.start as int,
                    end: range.end as int,
                    epoch: meta.epoch as int,
                    src: meta.src_node_address@,
                    dst: meta.dst_node_address@,
                },
                importing: true,
            },
        ),
    }
}

/// One migration that a proxy holds.
#[derive(Debug)]
pub struct MigrationTask {
    db_name: String,
    start: usize,
    end: usize,
    meta: MigrationMeta,
    state: TaskState,
}

impl MigrationTask {
    pub closed spec fn key(&self) -> TaskKey {
        TaskKey {
            db: self.db_name@,
            start: self.start as int,
            end: self.end as int,
            epoch: self.meta.epoch as int,
            src: self.meta.src_node_address@,
            dst: self.meta.dst_node_address@,
        }
    }

    pub closed spec fn state(&self) -> TaskState {
        self.state
    }

    /// A migration of the cluster `db_name` in `state`.
    pub fn new(
        db_name: String,
        start: usize,
        end: usize,
        meta: MigrationMeta,
        state: TaskState,
    ) -> (task: MigrationTask)
        ensures
            task.state() == state,
            task.key() == (TaskKey {
                db: db_name@,
                start: start as int,
                end: end as int,
                epoch: meta.epoch as int,
                src: meta.src_node_address@,
                dst: meta.dst_node_address@,
            }),
    {
        MigrationTask { db_name, start, end, meta, state }
    }

    pub fn get_state(&self) -> (state: TaskState)
        ensures
            state == self.state(),
    {
        self.state
    }

    pub fn get_db_name(&self) -> (name: &String)
        ensures
            name@ == self.key().db,
    {
        &self.db_name
    }

    /// The range of the migration: its start, and its end.
    pub fn get_range(&self) -> (range: (usize, usize))
        ensures
            range.0 == self.key().start,
            range.1 == self.key().end,
    {
        (self.start, self.end)
    }

    /// Whether the migration is the one that `db`, `range` and `meta` name.
    fn is_named(&self, db: &String, start: usize, end: usize, meta: &MigrationMeta) -> (res: bool)
        ensures
            res == (self.key() == TaskKey {
                db: db@,
                start: start as int,
                end: end as int,
                epoch: meta.epoch as int,
                src: meta.src_node_address@,
                dst: meta.dst_node_address@,
            }),
    {
        self.db_name == *db && self.start == start && self.end == end && self.meta.epoch
            == meta.epoch && self.meta.src_node_address == meta.src_node_address
            && self.meta.dst_node_address == meta.dst_node_address
    }

    /// The migration in the words of a switch command. The tag is the one of
    /// the side that the proxy holds.
    pub fn to_meta(&self) -> (meta: MigrationTaskMeta)
        ensures
            named_by(meta.db_name@, meta.slot_range) matches Some(named) && named.key
                == self.key() && named.importing == self.state() is Importing,
    {
        let tag = match self.state {
            TaskState::Migrating(_) => SlotRangeTag::Migrating(self.meta.clone()),
            TaskState::Importing(_) => SlotRangeTag::Importing(self.meta.clone()),
        };
        MigrationTaskMeta {
            db_name: self.db_name.clone(),
            slot_range: SlotRange { start: self.start, end: self.end, tag },
        }
    }

    /// A copy of the migration, in the same state.
    fn duplicate(&self) -> (copy: MigrationTask)
        ensures
            copy.key() == self.key(),
            copy.state() == self.state(),
    {
        MigrationTask {
            db_name: self.db_name.clone(),
            start: self.start,
            end: self.end,
            meta: self.meta.clone(),
            state: self.state,
        }
    }
}

/// Whether the migration named `key` holds `slot` of the cluster `db`.
pub open spec fn key_covers(key: TaskKey, db: Seq<char>, slot: int) -> bool {
    key.db == db && key.start <= slot < key.end
}

/// The position of the first of `keys` at or behind `from` that holds `slot`
/// of the cluster `db`, or the number of keys where there is none.
pub open spec fn cover_position(keys: Seq<TaskKey>, db: Seq<char>, slot: int, from: int) -> int
    decreases keys.len() - from,
{
    if from < 0 || from >= keys.len() {
        keys.len() as int
    } else if key_covers(keys[from], db, slot) {
        from
    } else {
        cover_position(keys, db, slot, from + 1)
    }
}

/// Where `cover_position` points: at a migration that holds the slot, or at
/// the end.
pub proof fn lemma_cover_position(keys: Seq<TaskKey>, db: Seq<char>, slot: int, from: int)
    requires
        0 <= from <= keys.len(),
    ensures
        from <= cover_position(keys, db, slot, from) <= keys.len(),
        cover_position(keys, db, slot, from) < keys.len() ==> key_covers(
            keys[cover_position(keys, db, slot, from)],
            db,
            slot,
        ),
    decreases keys.len() - from,
{
    if from < keys.len() && !key_covers(keys[from], db, slot) {
        lemma_cover_position(keys, db, slot, from + 1);
    }
}

/// A position that holds the slot or is the end, with none that holds it
/// between `from` and it, is where `cover_position` points.
pub proof fn lemma_cover_position_is(
    keys: Seq<TaskKey>,
    db: Seq<char>,
    slot: int,
    from: int,
    at: int,
)
    requires
        0 <= from <= at <= keys.len(),
        forall|i: int| from <= i < at ==> !key_covers(keys[i], db, slot),
        at < keys.len() ==> key_covers(keys[at], db, slot),
    ensures
        cover_position(keys, db, slot, from) == at,
    decreases at - from,
{
    if from < at {
        lemma_cover_position_is(keys, db, slot, from + 1, at);
    }
}

/// The names of the first `upto` migrations that are committed.
pub open spec fn finished_keys(keys: Seq<TaskKey>, states: Seq<TaskState>, upto: int) -> Seq<
    TaskKey,
>
    decreases upto,
{
    if upto <= 0 {
        Seq::empty()
    } else if committed(states[upto - 1]) {
        finished_keys(keys, states, upto - 1).push(keys[upto - 1])
    } else {
        finished_keys(keys, states, upto - 1)
    }
}

/// A name is among the first `upto` finished ones exactly where one of the
/// first `upto` migrations has that name and is committed.
pub proof fn lemma_finished_keys(
    keys: Seq<TaskKey>,
    states: Seq<TaskState>,
    upto: int,
    key: TaskKey,
)
    requires
        0 <= upto <= keys.len(),
    ensures
        finished_keys(keys, states, upto).contains(key) <==> exists|i: int|
            0 <= i < upto && #[trigger] keys[i] == key && committed(states[i]),
    decreases upto,
{
    if upto > 0 {
        lemma_finished_keys(keys, states, upto - 1, key);
        let before = finished_keys(keys, states, upto - 1);
        let now = finished_keys(keys, states, upto);
        if before.contains(key) {
            let k = choose|k: int| 0 <= k < before.len() && before[k] == key;
            assert(now[k] == key);
            let i = choose|i: int|
                0 <= i < upto - 1 && #[trigger] keys[i] == key && committed(states[i]);
            assert(keys[i] == key);
        }
        if committed(states[upto - 1]) && keys[upto - 1] == key {
            assert(now[before.len() as int] == key);
        }
        if now.contains(key) && !before.contains(key) {
            let k = choose|k: int| 0 <= k < now.len() && now[k] == key;
            assert(k == before.len());
            assert(keys[upto - 1] == key);
        }
        if exists|i: int| 0 <= i < upto && #[trigger] keys[i] == key && committed(states[i]) {
            let i = choose|i: int|
                0 <= i < upto && #[trigger] keys[i] == key && committed(states[i]);
            if i < upto - 1 {
                assert(keys[i] == key);
            }
        }
    }
}

/// The names of the migrations that `metas` speak of, in order; `None` for
/// one whose range has no tag.
pub open spec fn meta_keys(metas: Seq<MigrationTaskMeta>) -> Seq<Option<TaskKey>> {
    Seq::new(
        metas.len(),
        |i: int|
            match named_by(metas[i].db_name@, metas[i].slot_range) {
                Some(named) => Some(named.key),
                None => None,
            },
    )
}

/// Each of `keys` as the name of a migration that is there.
pub open spec fn present(keys: Seq<TaskKey>) -> Seq<Option<TaskKey>> {
    Seq::new(keys.len(), |i: int| Some(keys[i]))
}

/// The migrations that `ranges` of the cluster `db` name, in order.
pub open spec fn range_tasks(db: Seq<char>, ranges: Seq<SlotRange>) -> Seq<NamedTask>
    decreases ranges.len(),
{
    if ranges.len() == 0 {
        Seq::empty()
    } else {
        match named_by(db, ranges.last()) {
            Some(named) => range_tasks(db, ranges.drop_last()).push(named),
            None => range_tasks(db, ranges.drop_last()),
        }
    }
}

/// The migrations that a topology names, backend by backend and range by
/// range. One that both of its ends name occurs twice.
pub open spec fn topology_tasks(nodes: Seq<NodeSlots>) -> Seq<NamedTask>
    decreases nodes.len(),
{
    if nodes.len() == 0 {
        Seq::empty()
    } else {
        topology_tasks(nodes.drop_last()) + range_tasks(
            nodes.last().cluster_name@,
            nodes.last().slot_ranges@,
        )
    }
}

/// The names of `tasks`, in order.
pub open spec fn names_of(tasks: Seq<NamedTask>) -> Seq<TaskKey> {
    Seq::new(tasks.len(), |i: int| tasks[i].key)
}

/// `tasks` without those whose name occurred before: each migration once, as
/// it is first named.
pub open spec fn first_named(tasks: Seq<NamedTask>) -> Seq<NamedTask>
    decreases tasks.len(),
{
    if tasks.len() == 0 {
        Seq::empty()
    } else {
        let rest = first_named(tasks.drop_last());
        if position_of(names_of(rest), tasks.last().key, 0) < rest.len() {
            rest
        } else {
            rest.push(tasks.last())
        }
    }
}

/// Whether no name occurs twice in `keys`.
pub open spec fn distinct(keys: Seq<TaskKey>) -> bool {
    forall|i: int, j: int| 0 <= i < j < keys.len() ==> keys[i] != keys[j]
}

/// Each migration is first named once: no name occurs twice among those
/// first named.
pub proof fn lemma_first_named_distinct(tasks: Seq<NamedTask>)
    ensures
        distinct(names_of(first_named(tasks))),
    decreases tasks.len(),
{
    if tasks.len() > 0 {
        lemma_first_named_distinct(tasks.drop_last());
        let rest = first_named(tasks.drop_last());
        let key = tasks.last().key;
        lemma_position_of(names_of(rest), key, 0);
        if position_of(names_of(rest), key, 0) >= rest.len() {
            let all = names_of(rest.push(tasks.last()));
            assert forall|i: int, j: int| 0 <= i < j < all.len() implies all[i] != all[j] by {
                if j < rest.len() {
                    assert(all[i] == names_of(rest)[i] && all[j] == names_of(rest)[j]);
                } else {
                    assert(all[i] == names_of(rest)[i]);
                }
            }
        }
    }
}

/// The names of those of `tasks` that are not among `known`.
pub open spec fn unknown_keys(known: Seq<TaskKey>, tasks: Seq<NamedTask>) -> Seq<TaskKey>
    decreases tasks.len(),
{
    if tasks.len() == 0 {
        Seq::empty()
    } else {
        let rest = unknown_keys(known, tasks.drop_last());
        if position_of(known, tasks.last().key, 0) < known.len() {
            rest
        } else {
            rest.push(tasks.last().key)
        }
    }
}

/// The migrations that a proxy holds.
#[derive(Debug)]
pub struct MigrationMap {
    tasks: Vec<MigrationTask>,
}

impl MigrationMap {
    /// The names of the migrations, in order.
    pub closed spec fn keys(&self) -> Seq<TaskKey> {
        Seq::new(self.tasks@.len(), |i: int| self.tasks@[i].key())
    }

    /// The states of the migrations, in the order of their names.
    pub closed spec fn states(&self) -> Seq<TaskState> {
        Seq::new(self.tasks@.len(), |i: int| self.tasks@[i].state())
    }

    /// There is one state for each name.
    pub proof fn lemma_lengths(&self)
        ensures
            self.keys().len() == self.states().len(),
    {
    }

    /// The state of the migration named `key`, if the map holds it.
    pub open spec fn state_of(&self, key: TaskKey) -> Option<TaskState> {
        let at = position_of(self.keys(), key, 0);
        if at < self.keys().len() {
            Some(self.states()[at])
        } else {
            None
        }
    }

    /// The backend that has `slot` of the cluster `db` while it is under
    /// migration: the source of the first migration that holds the slot, or
    /// its destination once that migration is committed. `None` where no
    /// migration holds the slot.
    pub open spec fn route(&self, db: Seq<char>, slot: int) -> Option<Seq<char>> {
        let at = cover_position(self.keys(), db, slot, 0);
        if at < self.keys().len() {
            Some(
                if committed(self.states()[at]) {
                    self.keys()[at].dst
                } else {
                    self.keys()[at].src
                },
            )
        } else {
            None
        }
    }

    /// A copy of the map, each migration in its state.
    pub fn duplicate(&self) -> (copy: MigrationMap)
        ensures
            copy.keys() == self.keys(),
            copy.states() == self.states(),
    {
        let mut copy = MigrationMap { tasks: Vec::new() };
        let mut i: usize = 0;
        while i < self.tasks.len()
            invariant
                i <= self.tasks.len(),
                copy.tasks@.len() == i,
                forall|k: int|
                    0 <= k < i ==> (#[trigger] copy.tasks@[k]).key() == self.tasks@[k].key()
                        && copy.tasks@[k].state() == self.tasks@[k].state(),
            decreases self.tasks.len() - i,
        {
            copy.tasks.push(self.tasks[i].duplicate());
            i += 1;
        }
        assert(copy.keys() =~= self.keys());
        assert(copy.states() =~= self.states());
        copy
    }

    /// The number of migrations.
    pub fn len(&self) -> (n: usize)
        ensures
            n == self.keys().len(),
    {
        self.tasks.len()
    }

    /// The migration at position `at`.
    pub fn get(&self, at: usize) -> (task: &MigrationTask)
        requires
            at < self.keys().len(),
        ensures
            task.key() == self.keys()[at as int],
            task.state() == self.states()[at as int],
    {
        &self.tasks[at]
    }

    /// What applying `event` to the migration `named` gives: its new state.
    /// A range without a tag names none, and the map may hold none of the
    /// name.
    pub open spec fn advanced(&self, named: Option<NamedTask>, event: TaskEvent) -> Result<
        TaskState,
        SwitchError,
    > {
        match named {
            None => Err(SwitchError::InvalidArg),
            Some(task) => match self.state_of(task.key) {
                None => Err(SwitchError::TaskNotFound),
                Some(state) => Ok(state_after(state, event)),
            },
        }
    }

    /// The states once `event` is applied to the migration `named`: that
    /// migration is in its new state, all others are as they were.
    pub open spec fn states_after(&self, named: Option<NamedTask>, event: TaskEvent) -> Seq<
        TaskState,
    > {
        match self.advanced(named, event) {
            Ok(state) => self.states().update(position_of(self.keys(), named->0.key, 0), state),
            Err(_) => self.states(),
        }
    }

    /// What a switch command for the migration `named` is answered with. An
    /// aborted migration takes no switch.
    pub open spec fn switched(&self, named: Option<NamedTask>) -> Result<(), SwitchError> {
        match named {
            None => Err(SwitchError::InvalidArg),
            Some(task) => match self.state_of(task.key) {
                None => Err(SwitchError::TaskNotFound),
                Some(state) => if state == TaskState::Migrating(MigratingState::Aborted) {
                    Err(SwitchError::TaskAborted)
                } else {
                    Ok(())
                },
            },
        }
    }

    /// The finished list holds a migration exactly while it is committed:
    /// in a map whose names are distinct, a name is among the finished ones
    /// if and only if the map holds a migration of that name in a committed
    /// state.
    pub proof fn law_finished_are_the_committed(&self, key: TaskKey)
        requires
            distinct(self.keys()),
        ensures
            finished_keys(self.keys(), self.states(), self.keys().len() as int).contains(key)
                <==> (self.state_of(key) is Some && committed(self.state_of(key)->0)),
    {
        let keys = self.keys();
        self.lemma_lengths();
        lemma_finished_keys(keys, self.states(), keys.len() as int, key);
        lemma_position_of(keys, key, 0);
        let at = position_of(keys, key, 0);
        if exists|i: int|
            0 <= i < keys.len() && #[trigger] keys[i] == key && committed(self.states()[i]) {
            let i = choose|i: int|
                0 <= i < keys.len() && #[trigger] keys[i] == key && committed(self.states()[i]);
            assert(at <= i);
            assert(at == i);
        }
        if at < keys.len() && committed(self.states()[at]) {
            assert(keys[at] == key);
        }
    }

    /// A map without migrations.
    pub fn new() -> (map: MigrationMap)
        ensures
            map.keys() == Seq::<TaskKey>::empty(),
            map.states() == Seq::<TaskState>::empty(),
    {
        let map = MigrationMap { tasks: Vec::new() };
        assert(map.keys() =~= Seq::<TaskKey>::empty());
        assert(map.states() =~= Seq::<TaskState>::empty());
        map
    }

    /// The state in which the map of a new topology holds the migration
    /// `named`: the state that the map has for it, or the first state of the
    /// side that the topology names, where the map has none.
    pub open spec fn carried_state(&self, named: NamedTask) -> TaskState {
        match self.state_of(named.key) {
            Some(state) => state,
            None => initial_state(named.importing),
        }
    }

    /// The map for a new topology. It holds the migrations that the topology
    /// names, each once, in the order in which they are first named. One that
    /// this map holds keeps its state; one that it does not is new and starts
    /// on the side that the topology names first. What the topology does not
    /// name is dropped. The second component names the new ones.
    pub fn from_update(&self, local: &Vec<NodeSlots>) -> (res: (MigrationMap, Vec<MigrationTaskMeta>))
        ensures
            res.0.keys() == names_of(first_named(topology_tasks(local@))),
            distinct(res.0.keys()),
            forall|k: int|
                0 <= k < res.0.keys().len() ==> #[trigger] res.0.states()[k]
                    == self.carried_state(first_named(topology_tasks(local@))[k]),
            meta_keys(res.1@) == present(
                unknown_keys(self.keys(), first_named(topology_tasks(local@))),
            ),
    {
        let mut map = MigrationMap { tasks: Vec::new() };
        let mut created: Vec<MigrationTaskMeta> = Vec::new();
        let ghost mut flat: Seq<NamedTask> = Seq::empty();
        proof {
            assert(map.keys() =~= names_of(first_named(flat)));
            assert(meta_keys(created@) =~= present(unknown_keys(self.keys(), first_named(flat))));
        }
        let mut i: usize = 0;
        while i < local.len()
            invariant
                i <= local.len(),
                flat == topology_tasks(local@.take(i as int)),
                map.keys() == names_of(first_named(flat)),
                forall|k: int|
                    0 <= k < map.keys().len() ==> #[trigger] map.states()[k] == self.carried_state(
                        first_named(flat)[k],
                    ),
                meta_keys(created@) == present(unknown_keys(self.keys(), first_named(flat))),
            decreases local.len() - i,
        {
            let node = &local[i];
            let ghost base = flat;
            let ghost db = node.cluster_name@;
            let mut j: usize = 0;
            proof {
                assert(base + range_tasks(db, node.slot_ranges@.take(0)) =~= base);
            }
            while j < node.slot_ranges.len()
                invariant
                    j <= node.slot_ranges.len(),
                    i < local.len(),
                    node == &local[i as int],
                    db == node.cluster_name@,
                    flat == base + range_tasks(db, node.slot_ranges@.take(j as int)),
                    map.keys() == names_of(first_named(flat)),
                    forall|k: int|
                        0 <= k < map.keys().len() ==> #[trigger] map.states()[k]
                            == self.carried_state(first_named(flat)[k]),
                    meta_keys(created@) == present(unknown_keys(self.keys(), first_named(flat))),
                decreases node.slot_ranges.len() - j,
            {
                let range = &node.slot_ranges[j];
                let ghost seen = node.slot_ranges@.take(j as int);
                let ghost next = node.slot_ranges@.take(j + 1);
                proof {
                    assert(next.drop_last() =~= seen);
                    assert(next.last() == *range);
                }
                let (meta, importing) = match &range.tag {
                    SlotRangeTag::NoTag => {
                        j += 1;
                        continue ;
                    },
                    SlotRangeTag::Migrating(m) => (m, false),
                    SlotRangeTag::Importing(m) => (m, true),
                };
                let ghost named = named_by(db, *range)->0;
                let ghost firsts = first_named(flat);
                let ghost before_keys = map.keys();
                let ghost before_states = map.states();
                let ghost before_created = meta_keys(created@);
                proof {
                    assert(flat.push(named) =~= base + range_tasks(db, next));
                    assert(flat.push(named).drop_last() =~= flat);
                }
                let at = map.position(&node.cluster_name, range.start, range.end, meta);
                if at >= map.tasks.len() {
                    let known = self.position(&node.cluster_name, range.start, range.end, meta);
                    if known < self.tasks.len() {
                        map.tasks.push(self.tasks[known].duplicate());
                        proof {
                            self.lemma_lengths();
                            lemma_position_of(self.keys(), named.key, 0);
                            assert(self.keys()[known as int] == named.key);
                            assert(self.states()[known as int] == self.tasks@[known as int].state());
                        }
                    } else {
                        let state = if importing {
                            TaskState::Importing(ImportingState::Awaiting)
                        } else {
                            TaskState::Migrating(MigratingState::Preparing)
                        };
                        let task = MigrationTask::new(
                            node.cluster_name.clone(),
                            range.start,
                            range.end,
                            meta.clone(),
                            state,
                        );
                        created.push(task.to_meta());
                        map.tasks.push(task);
                        proof {
                            assert(meta_keys(created@) =~= before_created.push(Some(named.key)));
                        }
                    }
                    proof {
                        assert(map.keys() =~= before_keys.push(named.key));
                        assert(names_of(firsts.push(named)) =~= names_of(firsts).push(named.key));
                        assert(firsts.push(named).drop_last() =~= firsts);
                        assert forall|k: int|
                            0 <= k < map.keys().len() implies #[trigger] map.states()[k]
                            == self.carried_state(first_named(flat.push(named))[k]) by {
                            if k < before_keys.len() {
                                assert(map.states()[k] == before_states[k]);
                            }
                        }
                    }
                }
                proof {
                    flat = flat.push(named);
                    assert(meta_keys(created@) =~= present(
                        unknown_keys(self.keys(), first_named(flat)),
                    ));
                }
                j += 1;
            }
            proof {
                assert(node.slot_ranges@.take(j as int) =~= node.slot_ranges@);
                assert(local@.take(i + 1).drop_last() =~= local@.take(i as int));
                assert(local@.take(i + 1).last() == local@[i as int]);
            }
            i += 1;
        }
        proof {
            assert(local@.take(i as int) =~= local@);
            lemma_first_named_distinct(topology_tasks(local@));
        }
        (map, created)
    }

    /// The position of the migration that `db`, the range and `meta` name.
    fn position(&self, db: &String, start: usize, end: usize, meta: &MigrationMeta) -> (at: usize)
        ensures
            at <= self.tasks@.len(),
            at == position_of(
                self.keys(),
                TaskKey {
                    db: db@,
                    start: start as int,
                    end: end as int,
                    epoch: meta.epoch as int,
                    src: meta.src_node_address@,
                    dst: meta.dst_node_address@,
                },
                0,
            ),
    {
        let ghost key = TaskKey {
            db: db@,
            start: start as int,
            end: end as int,
            epoch: meta.epoch as int,
            src: meta.src_node_address@,
            dst: meta.dst_node_address@,
        };
        let mut at: usize = 0;
        while at < self.tasks.len() && !self.tasks[at].is_named(db, start, end, meta)
            invariant
                at <= self.tasks.len(),
                key == (TaskKey {
                    db: db@,
                    start: start as int,
                    end: end as int,
                    epoch: meta.epoch as int,
                    src: meta.src_node_address@,
                    dst: meta.dst_node_address@,
                }),
                forall|i: int| 0 <= i < at ==> self.keys()[i] != key,
            decreases self.tasks.len() - at,
        {
            at += 1;
        }
        proof {
            lemma_position_is(self.keys(), key, 0, at as int);
        }
        at
    }

    /// The state of the migration that `meta` names, if the map holds it.
    pub fn find_state(&self, meta: &MigrationTaskMeta) -> (state: Option<TaskState>)
        ensures
            state == match named_by(meta.db_name@, meta.slot_range) {
                None => None,
                Some(named) => self.state_of(named.key),
            },
    {
        let task_meta = match &meta.slot_range.tag {
            SlotRangeTag::NoTag => {
                return None;
            },
            SlotRangeTag::Migrating(m) => m,
            SlotRangeTag::Importing(m) => m,
        };
        let at = self.position(&meta.db_name, meta.slot_range.start, meta.slot_range.end, task_meta);
        if at < self.tasks.len() {
            Some(self.tasks[at].state)
        } else {
            None
        }
    }

    /// Applies `event` to the migration that `meta` names and gives its new
    /// state. A range without a tag names none.
    pub fn advance(&mut self, meta: &MigrationTaskMeta, event: TaskEvent) -> (res: Result<
        TaskState,
        SwitchError,
    >)
        ensures
            res == old(self).advanced(named_by(meta.db_name@, meta.slot_range), event),
            final(self).keys() == old(self).keys(),
            final(self).states() == old(self).states_after(
                named_by(meta.db_name@, meta.slot_range),
                event,
            ),
    {
        let task_meta = match &meta.slot_range.tag {
            SlotRangeTag::NoTag => {
                return Err(SwitchError::InvalidArg);
            },
            SlotRangeTag::Migrating(m) => m,
            SlotRangeTag::Importing(m) => m,
        };
        let at = self.position(&meta.db_name, meta.slot_range.start, meta.slot_range.end, task_meta);
        if at >= self.tasks.len() {
            return Err(SwitchError::TaskNotFound);
        }
        let next = next_state(self.tasks[at].state, event);
        let ghost before = self.tasks@;
        let mut task = self.tasks[at].duplicate();
        task.state = next;
        self.tasks.set(at, task);
        proof {
            assert(self.keys() =~= old(self).keys());
            assert(self.states() =~= old(self).states().update(at as int, next));
        }
        Ok(next)
    }

    /// Applies a switch command: the migration that it names moves to the
    /// step asked for. An aborted migration takes no switch.
    pub fn handle_switch(&mut self, switch_arg: &SwitchArg, sub_cmd: MgrSubCmd) -> (res: Result<
        (),
        SwitchError,
    >)
        ensures
            res == old(self).switched(named_by(switch_arg.meta.db_name@, switch_arg.meta.slot_range)),
            final(self).keys() == old(self).keys(),
            final(self).states() == old(self).states_after(
                named_by(switch_arg.meta.db_name@, switch_arg.meta.slot_range),
                TaskEvent::Switch(sub_cmd),
            ),
    {
        match self.advance(&switch_arg.meta, TaskEvent::Switch(sub_cmd)) {
            Ok(TaskState::Migrating(MigratingState::Aborted)) => Err(SwitchError::TaskAborted),
            Ok(_) => Ok(()),
            Err(e) => Err(e),
        }
    }

    /// Finds the backend for `cmd_ctx` among the migrations. The request goes
    /// along; where no migration holds the slot of its key it comes back.
    pub fn send(&self, cmd_ctx: CmdCtx) -> (res: Result<Forward, DBSendError>)
        ensures
            match command_key(cmd_ctx.command()) {
                Some(key) => match self.route(cmd_ctx.db_name(), key_slot(key)) {
                    Some(address) => res matches Ok(forward) && forward.address@ == address
                        && forward.cmd_ctx == cmd_ctx,
                    None => res matches Err(DBSendError::SlotNotFound(ctx)) && ctx == cmd_ctx,
                },
                None => res matches Err(DBSendError::SlotNotFound(ctx)) && ctx == cmd_ctx,
            },
    {
        let slot = match cmd_ctx.get_cmd().get_key() {
            Some(key) => slot_of_key(key.as_slice()),
            None => {
                return Err(DBSendError::SlotNotFound(cmd_ctx));
            },
        };
        let db = cmd_ctx.get_db_name();
        let mut at: usize = 0;
        while at < self.tasks.len() && !(self.tasks[at].db_name == db && self.tasks[at].start
            <= slot && slot < self.tasks[at].end)
            invariant
                at <= self.tasks.len(),
                forall|i: int| 0 <= i < at ==> !key_covers(self.keys()[i], db@, slot as int),
            decreases self.tasks.len() - at,
        {
            at += 1;
        }
        proof {
            lemma_cover_position_is(self.keys(), db@, slot as int, 0, at as int);
        }
        if at >= self.tasks.len() {
            return Err(DBSendError::SlotNotFound(cmd_ctx));
        }
        let address = if is_committed(self.tasks[at].state) {
            self.tasks[at].meta.dst_node_address.clone()
        } else {
            self.tasks[at].meta.src_node_address.clone()
        };
        Ok(Forward { address, cmd_ctx })
    }

    /// The migrations that are committed, in the words of a switch command.
    pub fn get_finished_tasks(&self) -> (metas: Vec<MigrationTaskMeta>)
        ensures
            meta_keys(metas@) == present(
                finished_keys(self.keys(), self.states(), self.keys().len() as int),
            ),
    {
        let mut metas: Vec<MigrationTaskMeta> = Vec::new();
        assert(meta_keys(metas@) =~= present(finished_keys(self.keys(), self.states(), 0)));
        let mut i: usize = 0;
        while i < self.tasks.len()
            invariant
                i <= self.tasks.len(),
                meta_keys(metas@) == present(finished_keys(self.keys(), self.states(), i as int)),
            decreases self.tasks.len() - i,
        {
            if is_committed(self.tasks[i].state) {
                let ghost before = meta_keys(metas@);
                let meta = self.tasks[i].to_meta();
                metas.push(meta);
                assert(meta_keys(metas@) =~= before.push(Some(self.keys()[i as int])));
                assert(meta_keys(metas@) =~= present(
                    finished_keys(self.keys(), self.states(), i + 1),
                ));
            }
            i += 1;
        }
        metas
    }
}

} // verus!
