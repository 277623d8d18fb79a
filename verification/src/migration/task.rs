//! One migration: its state on the side that holds it, and how switch
//! commands and the driver move it.

use crate::common::cluster::MigrationTaskMeta;
use crate::protocol::client::RedisClientError;
use crate::protocol::resp::{Resp, RespValue};
use crate::proxy::command::{ascii_bytes, error_resp};
use vstd::prelude::*;
use vstd::string::*;

verus! {

/// The steps of the side that gives the range away.
#[derive(Debug, Clone, Copy, PartialEq, Eq, Structural)]
pub enum MigratingState {
    Preparing,
    PreCheck,
    PreBlock,
    Committing,
    Committed,
    Aborted,
}

/// The steps of the side that takes the range.
#[derive(Debug, Clone, Copy, PartialEq, Eq, Structural)]
pub enum ImportingState {
    Awaiting,
    Serving,
    Switched,
}

/// The state of a migration, by the side that the proxy holds.
#[derive(Debug, Clone, Copy, PartialEq, Eq, Structural)]
pub enum TaskState {
    Migrating(MigratingState),
    Importing(ImportingState),
}

/// The step that a switch command asks for.
#[derive(Debug, Clone, Copy, PartialEq, Eq, Structural)]
pub enum MgrSubCmd {
    PreCheck,
    PreBlock,
    Commit,
}

/// What moves a migration: a switch command, the driver starting the commit
/// handshake, or a failure.
#[derive(Debug, Clone, Copy, PartialEq, Eq, Structural)]
pub enum TaskEvent {
    Switch(MgrSubCmd),
    StartCommit,
    Fail,
}

/// A switch command: the version of its sender and the migration it names.
#[derive(Debug)]
pub struct SwitchArg {
    pub version: String,
    pub meta: MigrationTaskMeta,
}

/// Why a switch command was not applied.
#[derive(Debug, Clone, Copy, PartialEq, Eq, Structural)]
pub enum SwitchError {
    /// The command names no migration: its range has no tag.
    InvalidArg,
    /// The proxy has not seen the epoch of the migration yet.
    NotReady,
    /// The proxy holds no such migration.
    TaskNotFound,
    /// The migration was aborted.
    TaskAborted,
}

/// The text that tells why a switch command was not applied.
pub open spec fn switch_error_text(e: SwitchError) -> Seq<char> {
    match e {
        SwitchError::InvalidArg => "Err invalid arg"@,
        SwitchError::NotReady => "Err not ready"@,
        SwitchError::TaskNotFound => "Err task not found"@,
        SwitchError::TaskAborted => "Err task aborted"@,
    }
}

/// The reply that tells why a switch command was not applied.
pub fn switch_error_resp(e: SwitchError) -> (resp: Resp)
    ensures
        resp@ == RespValue::Error(ascii_bytes(switch_error_text(e))),
{
    proof {
        reveal_strlit("Err invalid arg");
        reveal_strlit("Err not ready");
        reveal_strlit("Err task not found");
        reveal_strlit("Err task aborted");
    }
    match e {
        SwitchError::InvalidArg => error_resp("Err invalid arg"),
        SwitchError::NotReady => error_resp("Err not ready"),
        SwitchError::TaskNotFound => error_resp("Err task not found"),
        SwitchError::TaskAborted => error_resp("Err task aborted"),
    }
}

/// How far a giving side has come; an aborted one has come nowhere.
pub open spec fn progress(state: MigratingState) -> int {
    match state {
        MigratingState::Aborted => -1,
        MigratingState::Preparing => 0,
        MigratingState::PreCheck => 1,
        MigratingState::PreBlock => 2,
        MigratingState::Committing => 3,
        MigratingState::Committed => 4,
    }
}

/// The giving side after a switch command: it moves forward to the step
/// asked for and never back; a commit completes it.
pub open spec fn migrating_after_switch(state: MigratingState, sub_cmd: MgrSubCmd) -> MigratingState {
    match state {
        MigratingState::Aborted => MigratingState::Aborted,
        MigratingState::Committed => MigratingState::Committed,
        _ => match sub_cmd {
            MgrSubCmd::Commit => MigratingState::Committed,
            MgrSubCmd::PreBlock => if progress(state) < 2 {
                MigratingState::PreBlock
            } else {
                state
            },
            MgrSubCmd::PreCheck => if progress(state) < 1 {
                MigratingState::PreCheck
            } else {
                state
            },
        },
    }
}

/// The taking side after a switch command: a pre-check leaves it, a
/// pre-block makes it serve, a commit switches it.
pub open spec fn importing_after_switch(state: ImportingState, sub_cmd: MgrSubCmd) -> ImportingState {
    match sub_cmd {
        MgrSubCmd::Commit => ImportingState::Switched,
        MgrSubCmd::PreBlock => match state {
            ImportingState::Awaiting => ImportingState::Serving,
            _ => state,
        },
        MgrSubCmd::PreCheck => state,
    }
}

/// The state after an event.
pub open spec fn state_after(state: TaskState, event: TaskEvent) -> TaskState {
    match state {
        TaskState::Migrating(s) => TaskState::Migrating(
            match event {
                TaskEvent::Switch(sub_cmd) => migrating_after_switch(s, sub_cmd),
                TaskEvent::StartCommit => if 0 <= progress(s) < 3 {
                    MigratingState::Committing
                } else {
                    s
                },
                TaskEvent::Fail => match s {
                    MigratingState::Committed => MigratingState::Committed,
                    _ => MigratingState::Aborted,
                },
            },
        ),
        TaskState::Importing(s) => TaskState::Importing(
            match event {
                TaskEvent::Switch(sub_cmd) => importing_after_switch(s, sub_cmd),
                _ => s,
            },
        ),
    }
}

/// The state after a run of events.
pub open spec fn state_after_all(state: TaskState, events: Seq<TaskEvent>) -> TaskState
    decreases events.len(),
{
    if events.len() == 0 {
        state
    } else {
        state_after(state_after_all(state, events.drop_last()), events.last())
    }
}

/// Whether the destination has the range: the giving side has committed, or
/// the taking side has switched. Until then the source has it.
pub open spec fn committed(state: TaskState) -> bool {
    state == TaskState::Migrating(MigratingState::Committed) || state == TaskState::Importing(
        ImportingState::Switched,
    )
}

/// The state in which a migration starts on its side.
pub open spec fn initial_state(importing: bool) -> TaskState {
    if importing {
        TaskState::Importing(ImportingState::Awaiting)
    } else {
        TaskState::Migrating(MigratingState::Preparing)
    }
}

/// The state after `event`.
pub fn next_state(state: TaskState, event: TaskEvent) -> (next: TaskState)
    ensures
        next == state_after(state, event),
{
    match state {
        TaskState::Migrating(s) => {
            let n = match event {
                TaskEvent::Switch(sub_cmd) => match s {
                    MigratingState::Aborted => MigratingState::Aborted,
                    MigratingState::Committed => MigratingState::Committed,
                    _ => match sub_cmd {
                        MgrSubCmd::Commit => MigratingState::Committed,
                        MgrSubCmd::PreBlock => match s {
                            MigratingState::Preparing => MigratingState::PreBlock,
                            MigratingState::PreCheck => MigratingState::PreBlock,
                            _ => s,
                        },
                        MgrSubCmd::PreCheck => match s {
                            MigratingState::Preparing => MigratingState::PreCheck,
                            _ => s,
                        },
                    },
                },
                TaskEvent::StartCommit => match s {
                    MigratingState::Preparing => MigratingState::Committing,
                    MigratingState::PreCheck => MigratingState::Committing,
                    MigratingState::PreBlock => MigratingState::Committing,
                    _ => s,
                },
                TaskEvent::Fail => match s {
                    MigratingState::Committed => MigratingState::Committed,
                    _ => MigratingState::Aborted,
                },
            };
            TaskState::Migrating(n)
        },
        TaskState::Importing(s) => {
            let n = match event {
                TaskEvent::Switch(MgrSubCmd::Commit) => ImportingState::Switched,
                TaskEvent::Switch(MgrSubCmd::PreBlock) => match s {
                    ImportingState::Awaiting => ImportingState::Serving,
                    _ => s,
                },
                _ => s,
            };
            TaskState::Importing(n)
        },
    }
}

/// Whether the destination has the range in `state`.
pub fn is_committed(state: TaskState) -> (res: bool)
    ensures
        res == committed(state),
{
    match state {
        TaskState::Migrating(MigratingState::Committed) => true,
        TaskState::Importing(ImportingState::Switched) => true,
        _ => false,
    }
}

/// What the driver of a migration does next.
#[derive(Debug, Clone, Copy, PartialEq, Eq, Structural)]
pub enum DriverStep {
    /// Send this switch command to the taking side, and on its success apply
    /// it here.
    Send(MgrSubCmd),
    /// The migration is committed: the driver has nothing left to do.
    Done,
    /// The migration is aborted, or held on the taking side: the driver
    /// stops.
    Stop,
}

/// The next step of the driver in `state`: the giving side is walked through
/// pre-check, pre-block and commit.
pub open spec fn driver_step(state: TaskState) -> DriverStep {
    match state {
        TaskState::Migrating(MigratingState::Preparing) => DriverStep::Send(MgrSubCmd::PreCheck),
        TaskState::Migrating(MigratingState::PreCheck) => DriverStep::Send(MgrSubCmd::PreBlock),
        TaskState::Migrating(MigratingState::PreBlock) => DriverStep::Send(MgrSubCmd::Commit),
        TaskState::Migrating(MigratingState::Committing) => DriverStep::Send(MgrSubCmd::Commit),
        TaskState::Migrating(MigratingState::Committed) => DriverStep::Done,
        TaskState::Migrating(MigratingState::Aborted) => DriverStep::Stop,
        TaskState::Importing(_) => DriverStep::Stop,
    }
}

/// What the driver of a migration in `state` does next.
pub fn next_driver_step(state: TaskState) -> (step: DriverStep)
    ensures
        step == driver_step(state),
{
    match state {
        TaskState::Migrating(MigratingState::Preparing) => DriverStep::Send(MgrSubCmd::PreCheck),
        TaskState::Migrating(MigratingState::PreCheck) => DriverStep::Send(MgrSubCmd::PreBlock),
        TaskState::Migrating(MigratingState::PreBlock) => DriverStep::Send(MgrSubCmd::Commit),
        TaskState::Migrating(MigratingState::Committing) => DriverStep::Send(MgrSubCmd::Commit),
        TaskState::Migrating(MigratingState::Committed) => DriverStep::Done,
        TaskState::Migrating(MigratingState::Aborted) => DriverStep::Stop,
        TaskState::Importing(_) => DriverStep::Stop,
    }
}

/// What the answer of the taking side to a switch command means for the
/// migration: any reply but an error applies the step here, an error reply
/// or no reply at all fails the migration.
pub fn switch_reply_event(reply: &Result<Resp, RedisClientError>, sub_cmd: MgrSubCmd) -> (event:
    TaskEvent)
    ensures
        event == match reply {
            Ok(Resp::Error(_)) => TaskEvent::Fail,
            Ok(_) => TaskEvent::Switch(sub_cmd),
            Err(_) => TaskEvent::Fail,
        },
{
    match reply {
        Ok(Resp::Error(_)) => TaskEvent::Fail,
        Ok(_) => TaskEvent::Switch(sub_cmd),
        Err(_) => TaskEvent::Fail,
    }
}

/// The word that stands for a step in a switch command.
pub open spec fn sub_cmd_word(sub_cmd: MgrSubCmd) -> Seq<char> {
    match sub_cmd {
        MgrSubCmd::PreCheck => "PRECHECK"@,
        MgrSubCmd::PreBlock => "PREBLOCK"@,
        MgrSubCmd::Commit => "COMMIT"@,
    }
}

/// The word that stands for `sub_cmd` in a switch command.
pub fn sub_cmd_arg(sub_cmd: MgrSubCmd) -> (word: String)
    ensures
        word@ == sub_cmd_word(sub_cmd),
{
    match sub_cmd {
        MgrSubCmd::PreCheck => String::from_str("PRECHECK"),
        MgrSubCmd::PreBlock => String::from_str("PREBLOCK"),
        MgrSubCmd::Commit => String::from_str("COMMIT"),
    }
}

/// A driver that is left alone brings a migration on the giving side to its
/// commit: from any state but aborted, applying what the driver sends
/// three times over ends in committed.
pub proof fn law_driver_reaches_commit(state: MigratingState)
    requires
        state != MigratingState::Aborted,
    ensures
        ({
            let s0 = TaskState::Migrating(state);
            let s1 = driven(s0);
            let s2 = driven(s1);
            let s3 = driven(s2);
            committed(s3)
        }),
{
}

/// The state after the driver's next step has been sent and applied.
pub open spec fn driven(state: TaskState) -> TaskState {
    match driver_step(state) {
        DriverStep::Send(sub_cmd) => state_after(state, TaskEvent::Switch(sub_cmd)),
        _ => state,
    }
}

/// Commit is monotonic: a migration that is committed stays committed, in
/// the same state, whatever events follow.
pub proof fn law_commit_is_monotonic(state: TaskState, events: Seq<TaskEvent>)
    requires
        committed(state),
    ensures
        state_after_all(state, events) == state,
    decreases events.len(),
{
    if events.len() > 0 {
        law_commit_is_monotonic(state, events.drop_last());
    }
}

/// A commit command completes a migration unless it was aborted, and
/// applying it again changes nothing.
pub proof fn law_commit_is_idempotent(state: TaskState)
    ensures
        state != TaskState::Migrating(MigratingState::Aborted) ==> committed(
            state_after(state, TaskEvent::Switch(MgrSubCmd::Commit)),
        ),
        state_after(
            state_after(state, TaskEvent::Switch(MgrSubCmd::Commit)),
            TaskEvent::Switch(MgrSubCmd::Commit),
        ) == state_after(state, TaskEvent::Switch(MgrSubCmd::Commit)),
{
}

/// A giving side never moves back: no event lowers its progress, but a
/// failure before the commit, which aborts it.
pub proof fn law_progress_never_regresses(state: MigratingState, event: TaskEvent)
    requires
        event != TaskEvent::Fail,
    ensures
        progress(state_after(TaskState::Migrating(state), event)->Migrating_0) >= progress(state),
        state_after(TaskState::Migrating(state), event) is Migrating,
{
}

} // verus!
