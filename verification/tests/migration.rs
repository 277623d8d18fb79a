use shard_proxy::common::cluster::MigrationTaskMeta;
use shard_proxy::common::db::NodeSlots;
use shard_proxy::migration::delete_keys::DeleteKeysTaskMap;
use shard_proxy::migration::manager::{MigrationMap, MigrationTask};
use shard_proxy::migration::task::{
    is_committed, next_driver_step, next_state, sub_cmd_arg, switch_error_resp,
    switch_reply_event, DriverStep, ImportingState, MgrSubCmd, MigratingState, SwitchArg,
    SwitchError, TaskEvent, TaskState,
};
use shard_proxy::protocol::client::RedisClientError;
use shard_proxy::protocol::resp::Resp;
use shard_proxy::proxy::slot::{MigrationMeta, SlotRange, SlotRangeTag};

const MIGRATING: [MigratingState; 6] = [
    MigratingState::Preparing,
    MigratingState::PreCheck,
    MigratingState::PreBlock,
    MigratingState::Committing,
    MigratingState::Committed,
    MigratingState::Aborted,
];

const IMPORTING: [ImportingState; 3] =
    [ImportingState::Awaiting, ImportingState::Serving, ImportingState::Switched];

const EVENTS: [TaskEvent; 5] = [
    TaskEvent::Switch(MgrSubCmd::PreCheck),
    TaskEvent::Switch(MgrSubCmd::PreBlock),
    TaskEvent::Switch(MgrSubCmd::Commit),
    TaskEvent::StartCommit,
    TaskEvent::Fail,
];

fn giving(state: MigratingState, event: TaskEvent) -> MigratingState {
    match next_state(TaskState::Migrating(state), event) {
        TaskState::Migrating(s) => s,
        TaskState::Importing(_) => panic!("side changed"),
    }
}

fn taking(state: ImportingState, event: TaskEvent) -> ImportingState {
    match next_state(TaskState::Importing(state), event) {
        TaskState::Importing(s) => s,
        TaskState::Migrating(_) => panic!("side changed"),
    }
}

#[test]
fn giving_side_walks_through_its_steps() {
    let mut state = MigratingState::Preparing;
    state = giving(state, TaskEvent::Switch(MgrSubCmd::PreCheck));
    assert_eq!(state, MigratingState::PreCheck);
    state = giving(state, TaskEvent::Switch(MgrSubCmd::PreBlock));
    assert_eq!(state, MigratingState::PreBlock);
    state = giving(state, TaskEvent::StartCommit);
    assert_eq!(state, MigratingState::Committing);
    state = giving(state, TaskEvent::Switch(MgrSubCmd::Commit));
    assert_eq!(state, MigratingState::Committed);
}

#[test]
fn giving_side_never_steps_back() {
    assert_eq!(giving(MigratingState::PreBlock, TaskEvent::Switch(MgrSubCmd::PreCheck)), MigratingState::PreBlock);
    assert_eq!(giving(MigratingState::Committing, TaskEvent::Switch(MgrSubCmd::PreBlock)), MigratingState::Committing);
    assert_eq!(giving(MigratingState::Committing, TaskEvent::StartCommit), MigratingState::Committing);
    assert_eq!(giving(MigratingState::Preparing, TaskEvent::Switch(MgrSubCmd::PreBlock)), MigratingState::PreBlock);
    assert_eq!(giving(MigratingState::Preparing, TaskEvent::Switch(MgrSubCmd::Commit)), MigratingState::Committed);
    assert_eq!(giving(MigratingState::Preparing, TaskEvent::StartCommit), MigratingState::Committing);
}

#[test]
fn failure_aborts_before_the_commit_only() {
    for state in [MigratingState::Preparing, MigratingState::PreCheck, MigratingState::PreBlock, MigratingState::Committing, MigratingState::Aborted] {
        assert_eq!(giving(state, TaskEvent::Fail), MigratingState::Aborted);
    }
    assert_eq!(giving(MigratingState::Committed, TaskEvent::Fail), MigratingState::Committed);
    for event in EVENTS {
        assert_eq!(giving(MigratingState::Aborted, event), MigratingState::Aborted);
    }
}

#[test]
fn committed_stays_committed() {
    for event in EVENTS {
        assert_eq!(giving(MigratingState::Committed, event), MigratingState::Committed);
        assert_eq!(taking(ImportingState::Switched, event), ImportingState::Switched);
    }
}

#[test]
fn taking_side_steps() {
    assert_eq!(taking(ImportingState::Awaiting, TaskEvent::Switch(MgrSubCmd::PreCheck)), ImportingState::Awaiting);
    assert_eq!(taking(ImportingState::Awaiting, TaskEvent::Switch(MgrSubCmd::PreBlock)), ImportingState::Serving);
    assert_eq!(taking(ImportingState::Serving, TaskEvent::Switch(MgrSubCmd::PreBlock)), ImportingState::Serving);
    assert_eq!(taking(ImportingState::Awaiting, TaskEvent::Switch(MgrSubCmd::Commit)), ImportingState::Switched);
    assert_eq!(taking(ImportingState::Serving, TaskEvent::Switch(MgrSubCmd::Commit)), ImportingState::Switched);
    for state in IMPORTING {
        assert_eq!(taking(state, TaskEvent::StartCommit), state);
        assert_eq!(taking(state, TaskEvent::Fail), state);
    }
}

#[test]
fn only_the_last_step_of_each_side_is_committed() {
    for state in MIGRATING {
        assert_eq!(
            is_committed(TaskState::Migrating(state)),
            state == MigratingState::Committed
        );
    }
    for state in IMPORTING {
        assert_eq!(
            is_committed(TaskState::Importing(state)),
            state == ImportingState::Switched
        );
    }
}

fn meta() -> MigrationMeta {
    MigrationMeta {
        epoch: 7,
        src_node_address: "B1".to_string(),
        dst_node_address: "B2".to_string(),
    }
}

fn tagged(start: usize, end: usize, importing: bool) -> SlotRange {
    let tag = if importing {
        SlotRangeTag::Importing(meta())
    } else {
        SlotRangeTag::Migrating(meta())
    };
    SlotRange { start, end, tag }
}

fn named(start: usize, end: usize, importing: bool) -> MigrationTaskMeta {
    MigrationTaskMeta { db_name: "c".to_string(), slot_range: tagged(start, end, importing) }
}

fn node(address: &str, ranges: Vec<SlotRange>) -> NodeSlots {
    NodeSlots { cluster_name: "c".to_string(), address: address.to_string(), slot_ranges: ranges }
}

#[test]
fn task_speaks_of_itself_in_the_words_of_its_side() {
    let task = MigrationTask::new(
        "c".to_string(),
        0,
        10,
        meta(),
        TaskState::Importing(ImportingState::Awaiting),
    );
    assert_eq!(task.to_meta(), named(0, 10, true));
    assert_eq!(task.get_range(), (0, 10));
    assert_eq!(task.get_db_name(), "c");
    assert_eq!(task.get_state(), TaskState::Importing(ImportingState::Awaiting));
}

#[test]
fn map_of_a_topology_starts_each_task_on_its_side() {
    let local = vec![
        node("B1", vec![tagged(0, 10, false), SlotRange { start: 10, end: 20, tag: SlotRangeTag::NoTag }]),
        node("B2", vec![tagged(20, 30, true), tagged(0, 10, true)]),
    ];
    let (map, created) = MigrationMap::new().from_update(&local);
    assert_eq!(map.len(), 2);
    assert_eq!(created, vec![named(0, 10, false), named(20, 30, true)]);
    assert_eq!(map.get(0).get_state(), TaskState::Migrating(MigratingState::Preparing));
    assert_eq!(map.get(1).get_state(), TaskState::Importing(ImportingState::Awaiting));
    let deletions = DeleteKeysTaskMap::from_migrations(&map);
    assert_eq!(deletions.len(), 1);
    assert_eq!(DeleteKeysTaskMap::new().len(), 0);
}

#[test]
fn advance_applies_driver_events() {
    let local = vec![node("B1", vec![tagged(0, 10, false)])];
    let (mut map, _) = MigrationMap::new().from_update(&local);
    assert_eq!(
        map.advance(&named(0, 10, false), TaskEvent::StartCommit),
        Ok(TaskState::Migrating(MigratingState::Committing))
    );
    assert_eq!(
        map.advance(&named(0, 10, true), TaskEvent::Fail),
        Ok(TaskState::Migrating(MigratingState::Aborted))
    );
    let arg = SwitchArg { version: "1".to_string(), meta: named(0, 10, true) };
    assert_eq!(map.handle_switch(&arg, MgrSubCmd::Commit), Err(SwitchError::TaskAborted));
    assert_eq!(map.get(0).get_state(), TaskState::Migrating(MigratingState::Aborted));
    assert!(map.get_finished_tasks().is_empty());
    assert_eq!(
        map.advance(&named(5, 10, true), TaskEvent::Fail),
        Err(SwitchError::TaskNotFound)
    );
    let untagged = MigrationTaskMeta {
        db_name: "c".to_string(),
        slot_range: SlotRange { start: 0, end: 10, tag: SlotRangeTag::NoTag },
    };
    assert_eq!(map.advance(&untagged, TaskEvent::Fail), Err(SwitchError::InvalidArg));
}

#[test]
fn update_keeps_states_and_names_only_what_is_new() {
    let first = vec![node("B1", vec![tagged(0, 10, false), tagged(10, 20, false)])];
    let (mut map, created) = MigrationMap::new().from_update(&first);
    assert_eq!(created.len(), 2);
    let arg = SwitchArg { version: "1".to_string(), meta: named(10, 20, false) };
    assert_eq!(map.handle_switch(&arg, MgrSubCmd::PreBlock), Ok(()));
    let second = vec![node("B1", vec![tagged(30, 40, false), tagged(10, 20, false)])];
    let (next, created) = map.from_update(&second);
    assert_eq!(created, vec![named(30, 40, false)]);
    assert_eq!(next.len(), 2);
    assert_eq!(next.get(0).get_range(), (30, 40));
    assert_eq!(next.get(0).get_state(), TaskState::Migrating(MigratingState::Preparing));
    assert_eq!(next.get(1).get_range(), (10, 20));
    assert_eq!(next.get(1).get_state(), TaskState::Migrating(MigratingState::PreBlock));
}

#[test]
fn switch_error_replies() {
    assert_eq!(switch_error_resp(SwitchError::InvalidArg), Resp::Error(b"Err invalid arg".to_vec()));
    assert_eq!(switch_error_resp(SwitchError::NotReady), Resp::Error(b"Err not ready".to_vec()));
    assert_eq!(
        switch_error_resp(SwitchError::TaskNotFound),
        Resp::Error(b"Err task not found".to_vec())
    );
    assert_eq!(
        switch_error_resp(SwitchError::TaskAborted),
        Resp::Error(b"Err task aborted".to_vec())
    );
}

#[test]
fn driver_walks_the_giving_side_to_its_commit() {
    let mut state = TaskState::Migrating(MigratingState::Preparing);
    let mut sent = vec![];
    loop {
        match next_driver_step(state) {
            DriverStep::Send(sub_cmd) => {
                sent.push(sub_cmd);
                state = next_state(state, TaskEvent::Switch(sub_cmd));
            }
            DriverStep::Done => break,
            DriverStep::Stop => panic!("stopped"),
        }
    }
    assert_eq!(sent, vec![MgrSubCmd::PreCheck, MgrSubCmd::PreBlock, MgrSubCmd::Commit]);
    assert_eq!(state, TaskState::Migrating(MigratingState::Committed));
}

#[test]
fn driver_stops_on_aborted_and_on_the_taking_side() {
    assert_eq!(
        next_driver_step(TaskState::Migrating(MigratingState::Aborted)),
        DriverStep::Stop
    );
    for state in IMPORTING {
        assert_eq!(next_driver_step(TaskState::Importing(state)), DriverStep::Stop);
    }
    assert_eq!(
        next_driver_step(TaskState::Migrating(MigratingState::Committing)),
        DriverStep::Send(MgrSubCmd::Commit)
    );
    assert_eq!(
        next_driver_step(TaskState::Migrating(MigratingState::Committed)),
        DriverStep::Done
    );
}

#[test]
fn steps_have_their_words() {
    assert_eq!(sub_cmd_arg(MgrSubCmd::PreCheck), "PRECHECK");
    assert_eq!(sub_cmd_arg(MgrSubCmd::PreBlock), "PREBLOCK");
    assert_eq!(sub_cmd_arg(MgrSubCmd::Commit), "COMMIT");
}

#[test]
fn answer_to_a_switch_applies_or_fails_it() {
    let ok = Ok(Resp::Simple(b"OK".to_vec()));
    assert_eq!(switch_reply_event(&ok, MgrSubCmd::PreBlock), TaskEvent::Switch(MgrSubCmd::PreBlock));
    let refused = Ok(Resp::Error(b"Err not ready".to_vec()));
    assert_eq!(switch_reply_event(&refused, MgrSubCmd::Commit), TaskEvent::Fail);
    let down = Err(RedisClientError::Io);
    assert_eq!(switch_reply_event(&down, MgrSubCmd::Commit), TaskEvent::Fail);
}

#[test]
fn names_of_a_rebuilt_map_are_distinct() {
    let local = vec![
        node("B1", vec![tagged(0, 10, false), tagged(0, 10, false), tagged(0, 10, true)]),
        node("B2", vec![tagged(0, 10, true), tagged(10, 20, true)]),
    ];
    let (map, created) = MigrationMap::new().from_update(&local);
    assert_eq!(map.len(), 2);
    assert_eq!(created.len(), 2);
    assert_ne!(map.get(0).get_range(), map.get(1).get_range());
}
