//! The restore protocol as a state machine: the caller performs each action
//! and reports what came of it, and the machine decides what comes next.
use crate::text::{push_str, string_of};
use crate::timestamp::{formatted_stamp, Timestamp, DISPLAY_PATTERN};
use vstd::prelude::*;

verus! {

/// Where a restore stands.
#[derive(Clone, Copy, Debug, PartialEq, Eq, Structural)]
pub enum RestoreStage {
    /// Waiting to hear whether the game's process is running.
    CheckingLiveness,
    /// Waiting to hear whether the snapshot directory exists.
    CheckingSnapshot,
    /// Waiting for the snapshot's integrity check.
    Verifying,
    /// Waiting to hear whether the live save directory exists.
    ProbingSave,
    /// Waiting for the safety backup of the live save directory.
    BackingUp,
    /// Waiting for the live save directory to be emptied.
    Clearing,
    /// Waiting for the missing live save directory to be created.
    CreatingSave,
    /// Waiting for the snapshot's files to be copied in.
    CopyingIn,
    /// Finished.
    Done,
}

/// What the caller reports after performing an action.
#[derive(Clone, Copy, Debug, PartialEq, Eq, Structural)]
pub enum RestoreEvent {
    /// The answer to a question: is the process running, does the directory
    /// exist, did the snapshot verify.
    Answer(bool),
    /// The action completed.
    Completed,
    /// The action failed.
    Failed,
}

/// Why a restore did not complete.
#[derive(Clone, Copy, Debug, PartialEq, Eq, Structural)]
pub enum RestoreFailure {
    /// The snapshot directory does not exist.
    SnapshotNotFound,
    /// An action failed; the caller holds its cause.
    ActionFailed,
    /// An event came that the stage does not expect.
    UnexpectedEvent,
}

/// How a restore ended.
#[derive(Clone, Copy, Debug, PartialEq, Eq, Structural)]
pub enum RestoreOutcome {
    Succeeded { backed_up_current: bool },
    RejectedRunning,
    RejectedCorrupt,
    Failed(RestoreFailure),
}

/// What the caller is to do next.
#[derive(Clone, Copy, Debug, PartialEq, Eq, Structural)]
pub enum RestoreAction {
    /// Ask whether the game's process is running.
    CheckProcess,
    /// Ask whether the snapshot directory exists.
    CheckSnapshotExists,
    /// Verify the snapshot against its sidecar.
    VerifySnapshot,
    /// Ask whether the live save directory exists.
    ProbeSaveDir,
    /// Create a safety-backup snapshot of the live save directory.
    CreateBackup,
    /// Remove every entry directly under the live save directory.
    ClearSaveDir,
    /// Create the live save directory, empty.
    CreateSaveDir,
    /// Copy the snapshot's files, without its sidecar, into the live save directory.
    CopyIn,
    /// Stop: the restore ended so.
    Finish(RestoreOutcome),
}

/// The state of a restore: its stage, and whether a safety backup was made.
#[derive(Clone, Copy, Debug, PartialEq, Eq, Structural)]
pub struct RestoreState {
    pub stage: RestoreStage,
    pub backed_up: bool,
}

/// Whether an action changes the live save directory or the snapshot store.
pub open spec fn is_mutating(a: RestoreAction) -> bool {
    match a {
        RestoreAction::CreateBackup | RestoreAction::ClearSaveDir | RestoreAction::CreateSaveDir
        | RestoreAction::CopyIn => true,
        _ => false,
    }
}

pub open spec fn state(stage: RestoreStage, backed_up: bool) -> RestoreState {
    RestoreState { stage, backed_up }
}

pub open spec fn finish(o: RestoreOutcome) -> (RestoreState, RestoreAction) {
    (state(RestoreStage::Done, false), RestoreAction::Finish(o))
}

/// The first step of a restore, for a game that names its executable or not.
pub open spec fn restore_begin(has_exe: bool) -> (RestoreState, RestoreAction) {
    if has_exe {
        (state(RestoreStage::CheckingLiveness, false), RestoreAction::CheckProcess)
    } else {
        (state(RestoreStage::CheckingSnapshot, false), RestoreAction::CheckSnapshotExists)
    }
}

/// The protocol: from a state and the caller's report, the next state and action.
pub open spec fn restore_next(s: RestoreState, e: RestoreEvent) -> (RestoreState, RestoreAction) {
    match (s.stage, e) {
        (RestoreStage::Done, _) => (s, RestoreAction::Finish(RestoreOutcome::Failed(RestoreFailure::UnexpectedEvent))),
        (_, RestoreEvent::Failed) => finish(RestoreOutcome::Failed(RestoreFailure::ActionFailed)),
        (RestoreStage::CheckingLiveness, RestoreEvent::Answer(running)) => if running {
            finish(RestoreOutcome::RejectedRunning)
        } else {
            (state(RestoreStage::CheckingSnapshot, false), RestoreAction::CheckSnapshotExists)
        },
        (RestoreStage::CheckingSnapshot, RestoreEvent::Answer(exists)) => if exists {
            (state(RestoreStage::Verifying, false), RestoreAction::VerifySnapshot)
        } else {
            finish(RestoreOutcome::Failed(RestoreFailure::SnapshotNotFound))
        },
        (RestoreStage::Verifying, RestoreEvent::Answer(ok)) => if ok {
            (state(RestoreStage::ProbingSave, false), RestoreAction::ProbeSaveDir)
        } else {
            finish(RestoreOutcome::RejectedCorrupt)
        },
        (RestoreStage::ProbingSave, RestoreEvent::Answer(exists)) => if exists {
            (state(RestoreStage::BackingUp, false), RestoreAction::CreateBackup)
        } else {
            (state(RestoreStage::CreatingSave, false), RestoreAction::CreateSaveDir)
        },
        (RestoreStage::BackingUp, RestoreEvent::Completed) => (
            state(RestoreStage::Clearing, true),
            RestoreAction::ClearSaveDir,
        ),
        (RestoreStage::Clearing, RestoreEvent::Completed) => (
            state(RestoreStage::CopyingIn, s.backed_up),
            RestoreAction::CopyIn,
        ),
        (RestoreStage::CreatingSave, RestoreEvent::Completed) => (
            state(RestoreStage::CopyingIn, s.backed_up),
            RestoreAction::CopyIn,
        ),
        (RestoreStage::CopyingIn, RestoreEvent::Completed) => finish(
            RestoreOutcome::Succeeded { backed_up_current: s.backed_up },
        ),
        _ => finish(RestoreOutcome::Failed(RestoreFailure::UnexpectedEvent)),
    }
}

/// Starts a restore.
pub fn begin_restore(has_exe: bool) -> (r: (RestoreState, RestoreAction))
    ensures
        r == restore_begin(has_exe),
{
    if has_exe {
        (RestoreState { stage: RestoreStage::CheckingLiveness, backed_up: false }, RestoreAction::CheckProcess)
    } else {
        (RestoreState { stage: RestoreStage::CheckingSnapshot, backed_up: false }, RestoreAction::CheckSnapshotExists)
    }
}

fn finish_with(o: RestoreOutcome) -> (r: (RestoreState, RestoreAction))
    ensures
        r == finish(o),
{
    (RestoreState { stage: RestoreStage::Done, backed_up: false }, RestoreAction::Finish(o))
}

/// Takes one step of a restore.
pub fn restore_step(s: RestoreState, e: RestoreEvent) -> (r: (RestoreState, RestoreAction))
    ensures
        r == restore_next(s, e),
        r.1 == RestoreAction::ClearSaveDir ==> s.stage == RestoreStage::BackingUp && e
            == RestoreEvent::Completed,
{
    match (s.stage, e) {
        (RestoreStage::Done, _) => (s, RestoreAction::Finish(RestoreOutcome::Failed(RestoreFailure::UnexpectedEvent))),
        (_, RestoreEvent::Failed) => finish_with(RestoreOutcome::Failed(RestoreFailure::ActionFailed)),
        (RestoreStage::CheckingLiveness, RestoreEvent::Answer(running)) => if running {
            finish_with(RestoreOutcome::RejectedRunning)
        } else {
            (RestoreState { stage: RestoreStage::CheckingSnapshot, backed_up: false }, RestoreAction::CheckSnapshotExists)
        },
        (RestoreStage::CheckingSnapshot, RestoreEvent::Answer(exists)) => if exists {
            (RestoreState { stage: RestoreStage::Verifying, backed_up: false }, RestoreAction::VerifySnapshot)
        } else {
            finish_with(RestoreOutcome::Failed(RestoreFailure::SnapshotNotFound))
        },
        (RestoreStage::Verifying, RestoreEvent::Answer(ok)) => if ok {
            (RestoreState { stage: RestoreStage::ProbingSave, backed_up: false }, RestoreAction::ProbeSaveDir)
        } else {
            finish_with(RestoreOutcome::RejectedCorrupt)
        },
        (RestoreStage::ProbingSave, RestoreEvent::Answer(exists)) => if exists {
            (RestoreState { stage: RestoreStage::BackingUp, backed_up: false }, RestoreAction::CreateBackup)
        } else {
            (RestoreState { stage: RestoreStage::CreatingSave, backed_up: false }, RestoreAction::CreateSaveDir)
        },
        (RestoreStage::BackingUp, RestoreEvent::Completed) => (
            RestoreState { stage: RestoreStage::Clearing, backed_up: true },
            RestoreAction::ClearSaveDir,
        ),
        (RestoreStage::Clearing, RestoreEvent::Completed) => (
            RestoreState { stage: RestoreStage::CopyingIn, backed_up: s.backed_up },
            RestoreAction::CopyIn,
        ),
        (RestoreStage::CreatingSave, RestoreEvent::Completed) => (
            RestoreState { stage: RestoreStage::CopyingIn, backed_up: s.backed_up },
            RestoreAction::CopyIn,
        ),
        (RestoreStage::CopyingIn, RestoreEvent::Completed) => finish_with(
            RestoreOutcome::Succeeded { backed_up_current: s.backed_up },
        ),
        _ => finish_with(RestoreOutcome::Failed(RestoreFailure::UnexpectedEvent)),
    }
}

/// The state after a run of events from the start, and the last action.
pub open spec fn run(has_exe: bool, events: Seq<RestoreEvent>) -> (RestoreState, RestoreAction)
    decreases events.len(),
{
    if events.len() == 0 {
        restore_begin(has_exe)
    } else {
        restore_next(run(has_exe, events.drop_last()).0, events.last())
    }
}

/// Along every run, the live save directory is cleared only right after the
/// safety backup completed, and the state remembers that a backup was made
/// from then on until the run finishes.
pub proof fn lemma_clear_follows_backup(has_exe: bool, events: Seq<RestoreEvent>)
    requires
        events.len() > 0,
    ensures
        run(has_exe, events).1 == RestoreAction::ClearSaveDir ==> run(
            has_exe,
            events.drop_last(),
        ).1 == RestoreAction::CreateBackup && events.last() == RestoreEvent::Completed,
        run(has_exe, events).1 == RestoreAction::ClearSaveDir ==> run(has_exe, events).0.backed_up,
{
    let prev = events.drop_last();
    if prev.len() > 0 {
        lemma_action_matches_stage(has_exe, prev);
    } else {
        assert(run(has_exe, prev) == restore_begin(has_exe));
    }
}

/// The last action of a run is the one that its stage waits on.
pub proof fn lemma_action_matches_stage(has_exe: bool, events: Seq<RestoreEvent>)
    ensures
        run(has_exe, events).0.stage == RestoreStage::BackingUp <==> run(has_exe, events).1
            == RestoreAction::CreateBackup,
        run(has_exe, events).0.stage == RestoreStage::CopyingIn ==> run(has_exe, events).1
            == RestoreAction::CopyIn,
    decreases events.len(),
{
    if events.len() > 0 {
        lemma_action_matches_stage(has_exe, events.drop_last());
    }
}

/// A restore whose liveness check reports the process running ends rejected,
/// and nothing before that changes the live save directory or the store.
pub proof fn lemma_running_blocks_restore()
    ensures
        !is_mutating(restore_begin(true).1),
        restore_next(restore_begin(true).0, RestoreEvent::Answer(true)).1 == RestoreAction::Finish(
            RestoreOutcome::RejectedRunning,
        ),
{
}

/// A restore that completes after backing up reports the backup.
pub proof fn lemma_success_reports_backup(has_exe: bool, events: Seq<RestoreEvent>)
    requires
        events.len() > 0,
        run(has_exe, events).1 == RestoreAction::Finish(
            RestoreOutcome::Succeeded { backed_up_current: true },
        ),
    ensures
        exists|i: int| 0 < i < events.len() && (#[trigger] run(has_exe, events.subrange(0, i))).1
            == RestoreAction::ClearSaveDir,
    decreases events.len(),
{
    let prev = events.drop_last();
    let p = run(has_exe, prev);
    assert(p.0.stage == RestoreStage::CopyingIn && p.0.backed_up);
    lemma_backed_up_came_from_clear(has_exe, prev);
    let i = choose|i: int| 0 < i <= prev.len() && (#[trigger] run(has_exe, prev.subrange(0, i))).1
        == RestoreAction::ClearSaveDir;
    assert(prev.subrange(0, i) =~= events.subrange(0, i));
}

/// A state that remembers a backup was reached through a clearing step.
proof fn lemma_backed_up_came_from_clear(has_exe: bool, events: Seq<RestoreEvent>)
    requires
        run(has_exe, events).0.backed_up,
    ensures
        exists|i: int| 0 < i <= events.len() && (#[trigger] run(has_exe, events.subrange(0, i))).1
            == RestoreAction::ClearSaveDir,
    decreases events.len(),
{
    assert(events.len() > 0);
    let prev = events.drop_last();
    let p = run(has_exe, prev);
    if run(has_exe, events).1 == RestoreAction::ClearSaveDir {
        assert(events.subrange(0, events.len() as int) =~= events);
    } else {
        assert(p.0.backed_up);
        lemma_backed_up_came_from_clear(has_exe, prev);
        let i = choose|i: int| 0 < i <= prev.len() && (#[trigger] run(has_exe, prev.subrange(0, i))).1
            == RestoreAction::ClearSaveDir;
        assert(prev.subrange(0, i) =~= events.subrange(0, i));
    }
}

/// Name of the safety backup taken at instant `t`.
pub open spec fn backup_name_text(t: Timestamp) -> Seq<char> {
    BACKUP_PREFIX@ + formatted_stamp(t, DISPLAY_PATTERN@)
}

pub const BACKUP_PREFIX: &'static str = "Auto-backup before restore ";

/// The name of a safety backup taken at instant `t`.
pub fn backup_name(t: &Timestamp) -> (r: String)
    requires
        t.wf(),
    ensures
        r@ == backup_name_text(*t),
{
    let stamp = t.format(DISPLAY_PATTERN);
    let mut out: Vec<char> = Vec::new();
    push_str(&mut out, BACKUP_PREFIX);
    push_str(&mut out, stamp.as_str());
    string_of(&out)
}

pub const RUNNING_PREFIX: &'static str = "Cannot restore: ";

pub const RUNNING_SUFFIX: &'static str = " is currently running. Please close the game first.";

pub const CORRUPT_MESSAGE: &'static str = "Snapshot verification failed. Files may be corrupted.";

pub const SUCCESS_MESSAGE: &'static str = "Restore completed successfully";

/// The explanation given when a restore is refused because `exe_name` is running.
pub fn running_message(exe_name: &str) -> (r: String)
    ensures
        r@ == RUNNING_PREFIX@ + exe_name@ + RUNNING_SUFFIX@,
{
    let mut out: Vec<char> = Vec::new();
    push_str(&mut out, RUNNING_PREFIX);
    push_str(&mut out, exe_name);
    push_str(&mut out, RUNNING_SUFFIX);
    string_of(&out)
}

/// What a restore reports to its caller.
#[derive(Clone, Debug, PartialEq, Eq)]
pub struct RestoreResult {
    pub success: bool,
    pub backed_up_current: bool,
    pub backup_snapshot_id: Option<String>,
    pub message: String,
}

/// The report of a restore that ended with `outcome`; `backup_snapshot_id` is
/// the id of the safety backup, if one was made, and `exe_name` the game's
/// executable. A failed restore has no report: its cause is the caller's error.
pub fn restore_result(
    outcome: RestoreOutcome,
    backup_snapshot_id: Option<String>,
    exe_name: &str,
) -> (r: Option<RestoreResult>)
    ensures
        outcome is Failed <==> r is None,
        r matches Some(x) ==> match outcome {
            RestoreOutcome::Succeeded { backed_up_current } => x.success && x.backed_up_current
                == backed_up_current && x.backup_snapshot_id == (if backed_up_current {
                backup_snapshot_id
            } else {
                None
            }) && x.message@ == SUCCESS_MESSAGE@,
            RestoreOutcome::RejectedRunning => !x.success && !x.backed_up_current
                && x.backup_snapshot_id is None && x.message@ == RUNNING_PREFIX@ + exe_name@
                + RUNNING_SUFFIX@,
            RestoreOutcome::RejectedCorrupt => !x.success && !x.backed_up_current
                && x.backup_snapshot_id is None && x.message@ == CORRUPT_MESSAGE@,
            RestoreOutcome::Failed(_) => false,
        },
{
    match outcome {
        RestoreOutcome::Succeeded { backed_up_current } => Some(
            RestoreResult {
                success: true,
                backed_up_current,
                backup_snapshot_id: if backed_up_current {
                    backup_snapshot_id
                } else {
                    None
                },
                message: SUCCESS_MESSAGE.to_string(),
            },
        ),
        RestoreOutcome::RejectedRunning => Some(
            RestoreResult {
                success: false,
                backed_up_current: false,
                backup_snapshot_id: None,
                message: running_message(exe_name),
            },
        ),
        RestoreOutcome::RejectedCorrupt => Some(
            RestoreResult {
                success: false,
                backed_up_current: false,
                backup_snapshot_id: None,
                message: CORRUPT_MESSAGE.to_string(),
            },
        ),
        RestoreOutcome::Failed(_) => None,
    }
}

} // verus!
