//! The key deletion tasks: one for each migration that a proxy holds on the
//! giving side. The work itself, moving and deleting keys, is done outside.

use super::manager::{MigrationMap, TaskKey};
use super::task::TaskState;
use vstd::prelude::*;

verus! {

/// The request to clear a range of a cluster of the keys that have left.
#[derive(Debug, PartialEq, Eq)]
pub struct DeleteKeysTask {
    pub db_name: String,
    pub start: usize,
    pub end: usize,
}

/// The cluster and the range of a deletion task.
pub open spec fn deletion_of(task: DeleteKeysTask) -> (Seq<char>, int, int) {
    (task.db_name@, task.start as int, task.end as int)
}

/// The clusters and ranges of the first `upto` migrations that are held on
/// the giving side.
pub open spec fn giving_ranges(keys: Seq<TaskKey>, states: Seq<TaskState>, upto: int) -> Seq<
    (Seq<char>, int, int),
>
    decreases upto,
{
    if upto <= 0 {
        Seq::empty()
    } else if states[upto - 1] is Migrating {
        giving_ranges(keys, states, upto - 1).push(
            (keys[upto - 1].db, keys[upto - 1].start, keys[upto - 1].end),
        )
    } else {
        giving_ranges(keys, states, upto - 1)
    }
}

/// The key deletion tasks of a proxy.
#[derive(Debug)]
pub struct DeleteKeysTaskMap {
    tasks: Vec<DeleteKeysTask>,
}

impl DeleteKeysTaskMap {
    /// The clusters and ranges of the tasks, in order.
    pub closed spec fn ranges(&self) -> Seq<(Seq<char>, int, int)> {
        Seq::new(self.tasks@.len(), |i: int| deletion_of(self.tasks@[i]))
    }

    /// A map without tasks.
    pub fn new() -> (map: DeleteKeysTaskMap)
        ensures
            map.ranges() == Seq::<(Seq<char>, int, int)>::empty(),
    {
        let map = DeleteKeysTaskMap { tasks: Vec::new() };
        assert(map.ranges() =~= Seq::<(Seq<char>, int, int)>::empty());
        map
    }

    /// The tasks for the migrations of `migrations`: one for each that is
    /// held on the giving side, in their order.
    pub fn from_migrations(migrations: &MigrationMap) -> (map: DeleteKeysTaskMap)
        ensures
            map.ranges() == giving_ranges(
                migrations.keys(),
                migrations.states(),
                migrations.keys().len() as int,
            ),
    {
        let mut map = DeleteKeysTaskMap { tasks: Vec::new() };
        assert(map.ranges() =~= giving_ranges(migrations.keys(), migrations.states(), 0));
        let mut i: usize = 0;
        while i < migrations.len()
            invariant
                i <= migrations.keys().len(),
                map.ranges() == giving_ranges(migrations.keys(), migrations.states(), i as int),
            decreases migrations.keys().len() - i,
        {
            let task = migrations.get(i);
            match task.get_state() {
                TaskState::Migrating(_) => {
                    let ghost before = map.ranges();
                    let (start, end) = task.get_range();
                    let deletion = DeleteKeysTask {
                        db_name: task.get_db_name().clone(),
                        start,
                        end,
                    };
                    map.tasks.push(deletion);
                    assert(map.ranges() =~= before.push(
                        (
                            migrations.keys()[i as int].db,
                            migrations.keys()[i as int].start,
                            migrations.keys()[i as int].end,
                        ),
                    ));
                },
                TaskState::Importing(_) => {},
            }
            i += 1;
        }
        map
    }

    /// A copy of the map.
    pub fn duplicate(&self) -> (copy: DeleteKeysTaskMap)
        ensures
            copy.ranges() == self.ranges(),
    {
        let mut copy = DeleteKeysTaskMap { tasks: Vec::new() };
        let mut i: usize = 0;
        while i < self.tasks.len()
            invariant
                i <= self.tasks.len(),
                copy.tasks@.len() == i,
                forall|k: int|
                    0 <= k < i ==> deletion_of(#[trigger] copy.tasks@[k]) == deletion_of(
                        self.tasks@[k],
                    ),
            decreases self.tasks.len() - i,
        {
            copy.tasks.push(
                DeleteKeysTask {
                    db_name: self.tasks[i].db_name.clone(),
                    start: self.tasks[i].start,
                    end: self.tasks[i].end,
                },
            );
            i += 1;
        }
        assert(copy.ranges() =~= self.ranges());
        copy
    }

    /// The number of tasks.
    pub fn len(&self) -> (n: usize)
        ensures
            n == self.ranges().len(),
    {
        self.tasks.len()
    }
}

} // verus!
