use checkpoint::restore::{
    backup_name, begin_restore, restore_result, restore_step, running_message, RestoreAction,
    RestoreEvent, RestoreFailure, RestoreOutcome,
};
use checkpoint::timestamp::Timestamp;

fn drive(has_exe: bool, events: &[RestoreEvent]) -> Vec<RestoreAction> {
    let (mut s, a) = begin_restore(has_exe);
    let mut actions = vec![a];
    for e in events {
        let (next, a) = restore_step(s, *e);
        s = next;
        actions.push(a);
    }
    actions
}

#[test]
fn running_game_blocks_restore() {
    let actions = drive(true, &[RestoreEvent::Answer(true)]);
    assert_eq!(
        actions,
        vec![RestoreAction::CheckProcess, RestoreAction::Finish(RestoreOutcome::RejectedRunning)]
    );
}

#[test]
fn restore_backs_up_before_clearing() {
    let actions = drive(
        true,
        &[RestoreEvent::Answer(false), RestoreEvent::Answer(true), RestoreEvent::Answer(true), RestoreEvent::Answer(true), RestoreEvent::Completed, RestoreEvent::Completed, RestoreEvent::Completed],
    );
    assert_eq!(
        actions,
        vec![
            RestoreAction::CheckProcess,
            RestoreAction::CheckSnapshotExists,
            RestoreAction::VerifySnapshot,
            RestoreAction::ProbeSaveDir,
            RestoreAction::CreateBackup,
            RestoreAction::ClearSaveDir,
            RestoreAction::CopyIn,
            RestoreAction::Finish(RestoreOutcome::Succeeded { backed_up_current: true }),
        ]
    );
}

#[test]
fn missing_save_directory_is_created_without_backup() {
    let actions = drive(false, &[RestoreEvent::Answer(true), RestoreEvent::Answer(true), RestoreEvent::Answer(false), RestoreEvent::Completed, RestoreEvent::Completed]);
    assert_eq!(
        actions,
        vec![
            RestoreAction::CheckSnapshotExists,
            RestoreAction::VerifySnapshot,
            RestoreAction::ProbeSaveDir,
            RestoreAction::CreateSaveDir,
            RestoreAction::CopyIn,
            RestoreAction::Finish(RestoreOutcome::Succeeded { backed_up_current: false }),
        ]
    );
}

#[test]
fn missing_or_corrupt_snapshot_stops_restore() {
    assert_eq!(
        drive(false, &[RestoreEvent::Answer(false)]).last(),
        Some(&RestoreAction::Finish(RestoreOutcome::Failed(RestoreFailure::SnapshotNotFound)))
    );
    assert_eq!(
        drive(false, &[RestoreEvent::Answer(true), RestoreEvent::Answer(false)]).last(),
        Some(&RestoreAction::Finish(RestoreOutcome::RejectedCorrupt))
    );
}

#[test]
fn failed_action_ends_restore() {
    assert_eq!(
        drive(false, &[RestoreEvent::Answer(true), RestoreEvent::Answer(true), RestoreEvent::Answer(true), RestoreEvent::Failed]).last(),
        Some(&RestoreAction::Finish(RestoreOutcome::Failed(RestoreFailure::ActionFailed)))
    );
    assert_eq!(
        drive(false, &[RestoreEvent::Completed]).last(),
        Some(&RestoreAction::Finish(RestoreOutcome::Failed(RestoreFailure::UnexpectedEvent)))
    );
}

#[test]
fn results_carry_messages() {
    let ok = restore_result(RestoreOutcome::Succeeded { backed_up_current: true }, Some("b1".to_string()), "g.exe").unwrap();
    assert!(ok.success && ok.backed_up_current);
    assert_eq!(ok.backup_snapshot_id, Some("b1".to_string()));
    assert_eq!(ok.message, "Restore completed successfully");
    let running = restore_result(RestoreOutcome::RejectedRunning, None, "g.exe").unwrap();
    assert!(!running.success);
    assert_eq!(running.message, "Cannot restore: g.exe is currently running. Please close the game first.");
    let corrupt = restore_result(RestoreOutcome::RejectedCorrupt, None, "g.exe").unwrap();
    assert_eq!(corrupt.message, "Snapshot verification failed. Files may be corrupted.");
    assert!(restore_result(RestoreOutcome::Failed(RestoreFailure::ActionFailed), None, "g").is_none());
    assert_eq!(running_message("x"), "Cannot restore: x is currently running. Please close the game first.");
}

#[test]
fn safety_backup_is_named_by_time() {
    let t = Timestamp::from_parts(2024, 3, 4, 5, 6, 7, 0).unwrap();
    assert_eq!(backup_name(&t), "Auto-backup before restore 2024-03-04 05:06:07");
}
