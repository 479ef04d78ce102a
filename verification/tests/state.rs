//! What is remembered of the operations on one file.

use filesystem_store::state::{
    Admission, FilesystemStoreOperationAttempt, FilesystemStoreOperationAttemptStatus,
    FilesystemStoreOperationState, PendingDurability,
};

fn state(
    latest: Option<(u64, FilesystemStoreOperationAttemptStatus)>,
    applied: Option<u64>,
) -> FilesystemStoreOperationState {
    FilesystemStoreOperationState {
        latest_operation: latest
            .map(|(version, status)| FilesystemStoreOperationAttempt { version, status }),
        latest_applied_version: applied,
        pending_durability: None,
    }
}

#[test]
fn versions_decide_who_may_proceed() {
    use_status(FilesystemStoreOperationAttemptStatus::Failed, Admission::Proceed);
    use_status(FilesystemStoreOperationAttemptStatus::Started, Admission::Blocked);

    let applied = state(Some((5, FilesystemStoreOperationAttemptStatus::Applied)), Some(5));
    assert_eq!(applied.judge(4), Admission::Superseded);
    assert_eq!(applied.judge(5), Admission::AlreadyApplied);
    assert_eq!(applied.judge(6), Admission::Proceed);
    assert_eq!(FilesystemStoreOperationState::new().judge(1), Admission::Proceed);
}

fn use_status(status: FilesystemStoreOperationAttemptStatus, older: Admission) {
    let state = state(Some((5, status)), Some(3));
    assert_eq!(state.judge(2), Admission::Superseded);
    assert_eq!(state.judge(3), Admission::AlreadyApplied);
    assert_eq!(state.judge(4), older);
    assert_eq!(state.judge(5), Admission::Proceed);
    assert_eq!(state.judge(6), Admission::Proceed);
}

#[test]
fn the_highest_applied_version_counts() {
    let mut state = state(Some((5, FilesystemStoreOperationAttemptStatus::Failed)), None);
    state.mark_version_applied(3);
    assert_eq!(state.latest_applied_version, Some(3));
    assert_eq!(
        state.latest_operation.unwrap().status,
        FilesystemStoreOperationAttemptStatus::Failed,
    );
    state.mark_version_applied(5);
    assert_eq!(state.latest_applied_version, Some(5));
    assert_eq!(
        state.latest_operation.unwrap().status,
        FilesystemStoreOperationAttemptStatus::Applied,
    );
    state.mark_version_applied(4);
    assert_eq!(state.latest_applied_version, Some(5));
}

#[test]
fn pending_changes_are_known() {
    let mut state = FilesystemStoreOperationState::new();
    assert!(!state.has_pending_durability_work());
    state.pending_durability = Some(PendingDurability::Directory { version: 7 });
    assert!(state.has_pending_durability_work());
    assert_eq!(PendingDurability::Directory { version: 7 }.version(), 7);
    assert_eq!(PendingDurability::File { version: 8, trash: Some(1) }.version(), 8);
}
