//! Laws on what is remembered of the operations on a file.

use crate::state::{
    Admission, FilesystemStoreOperationAttempt, FilesystemStoreOperationAttemptStatus,
    FilesystemStoreOperationState, PendingDurability, Platform,
};
use vstd::prelude::*;

verus! {

/// Of a file on which no operation was started nothing is remembered, and every operation may
/// change it.
pub proof fn law_nothing_is_remembered_at_first(version: u64)
    ensures
        ({
            let state = FilesystemStoreOperationState::empty();
            &&& state.latest_operation is None
            &&& state.latest_applied_version is None
            &&& state.pending_durability is None
            &&& state.last_change() is None
            &&& state.valid()
            &&& state.admission(version) == Admission::Proceed
        }),
{
}

/// How an operation stands towards the others: it is superseded if a newer one is applied, done if
/// it is applied itself, blocked if none of these holds and a newer one is under way, and may
/// proceed otherwise.
pub proof fn law_admission_goes_by_versions(state: FilesystemStoreOperationState, version: u64)
    ensures
        ({
            let newer_applied = state.latest_applied_version is Some
                && state.latest_applied_version->0 > version;
            let applied = state.latest_applied_version == Some(version);
            let newer_started = state.latest_operation is Some
                && state.latest_operation->0.version > version
                && state.latest_operation->0.status
                == FilesystemStoreOperationAttemptStatus::Started;
            &&& state.admission(version) == Admission::Superseded <==> newer_applied
            &&& state.admission(version) == Admission::AlreadyApplied <==> applied
            &&& state.admission(version) == Admission::Blocked <==> !newer_applied && !applied
                && newer_started
            &&& state.admission(version) == Admission::Proceed <==> !newer_applied && !applied
                && !newer_started
        }),
{
}

/// Starting an operation makes it the latest one, unless a newer one was started, and changes
/// nothing else.
pub proof fn law_started_operation_is_the_latest(
    state: FilesystemStoreOperationState,
    version: u64,
)
    ensures
        ({
            let started = state.started(version);
            &&& started.latest_applied_version == state.latest_applied_version
            &&& started.pending_durability == state.pending_durability
            &&& started.latest_operation == if state.latest_operation is Some
                && state.latest_operation->0.version > version {
                state.latest_operation
            } else {
                Some(
                    FilesystemStoreOperationAttempt {
                        version,
                        status: FilesystemStoreOperationAttemptStatus::Started,
                    },
                )
            }
        }),
{
}

/// Applying a version raises the applied version to it and never lowers it. The latest operation
/// counts as applied if it is that version. What is pending stays pending.
pub proof fn law_applied_version_never_falls(
    state: FilesystemStoreOperationState,
    version: u64,
)
    ensures
        ({
            let applied = state.applied(version);
            &&& applied.latest_applied_version is Some
            &&& applied.latest_applied_version->0 >= version
            &&& applied.latest_applied_version == Some(version)
                || applied.latest_applied_version == state.latest_applied_version
            &&& state.latest_applied_version is Some ==> applied.latest_applied_version->0
                >= state.latest_applied_version->0
            &&& applied.pending_durability == state.pending_durability
            &&& applied.latest_operation == if state.latest_operation is Some
                && state.latest_operation->0.version == version {
                Some(
                    FilesystemStoreOperationAttempt {
                        version,
                        status: FilesystemStoreOperationAttemptStatus::Applied,
                    },
                )
            } else {
                state.latest_operation
            }
        }),
{
}

/// A failure is remembered of the latest operation only, and changes nothing else.
pub proof fn law_failure_concerns_the_latest_operation_only(
    state: FilesystemStoreOperationState,
    version: u64,
)
    ensures
        ({
            let failed = state.failed(version);
            &&& failed.latest_applied_version == state.latest_applied_version
            &&& failed.pending_durability == state.pending_durability
            &&& failed.latest_operation == if state.latest_operation is Some
                && state.latest_operation->0.version == version {
                Some(
                    FilesystemStoreOperationAttempt {
                        version,
                        status: FilesystemStoreOperationAttemptStatus::Failed,
                    },
                )
            } else {
                state.latest_operation
            }
        }),
{
}

/// A change that is recorded as pending is pending, and once it is durable it is no longer pending
/// but applied. Without a pending change nothing becomes durable.
pub proof fn law_pending_change_becomes_applied(
    state: FilesystemStoreOperationState,
    version: u64,
    trash: Option<usize>,
    in_directory: bool,
)
    requires
        state.valid(),
    ensures
        ({
            let pending = if in_directory {
                PendingDurability::Directory { version }
            } else {
                PendingDurability::File { version, trash }
            };
            let changed = state.pending(pending);
            let durable = changed.durable();
            &&& changed.pending_durability == Some(pending)
            &&& changed.latest_operation == state.latest_operation
            &&& changed.latest_applied_version == state.latest_applied_version
            &&& changed.last_change() == Some(version)
            &&& durable.pending_durability is None
            &&& durable == (FilesystemStoreOperationState {
                pending_durability: None,
                ..state.applied(version)
            })
            &&& durable.latest_applied_version is Some
            &&& durable.latest_applied_version->0 >= version
            &&& state.pending_durability is None ==> {
                &&& state.durable() == state
                &&& state.last_change() == state.latest_applied_version
            }
            &&& pending.spec_version() == version
            &&& pending.trash() == if in_directory {
                None
            } else {
                trash
            }
            &&& pending.fits(Platform::Unix) <==> in_directory
            &&& pending.fits(Platform::Windows) <==> !in_directory
        }),
{
}

/// What may be remembered at the same time: no version is applied or pending that is newer than the
/// latest started one, the latest counts as applied exactly if it is, and a pending change is newer
/// than every applied one.
pub proof fn law_valid_states(state: FilesystemStoreOperationState)
    ensures
        state.valid() <==> {
            let latest = state.latest_operation;
            let applied = state.latest_applied_version;
            let pending = match state.pending_durability {
                None => None,
                Some(PendingDurability::Directory { version }) => Some(version),
                Some(PendingDurability::File { version, .. }) => Some(version),
            };
            &&& applied is Some ==> latest is Some && applied->0 <= latest->0.version
            &&& pending is Some ==> latest is Some && pending->0 <= latest->0.version
            &&& pending is Some && applied is Some ==> applied->0 < pending->0
            &&& latest is Some ==> (latest->0.status
                == FilesystemStoreOperationAttemptStatus::Applied <==> applied == Some(
                latest->0.version,
            ))
        },
{
}

} // verus!
