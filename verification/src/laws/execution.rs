//! Laws on the order in which an execution does things, and on when it does nothing.

use crate::action::{OutcomeView, StepView};
use crate::error::ErrorView;
use crate::execution::{ExecutionView, Job, Stage};
use crate::execution::{begin, blocked_error, execution_valid, finish, perform, resume};
use crate::execution::lemma_resume_valid;
use crate::state::{
    FilesystemStoreOperationAttemptStatus, FilesystemStoreOperationState,
    FilesystemStoreOperationStatus,
};
use vstd::prelude::*;

verus! {

/// How many actions may still follow at a stage.
pub open spec fn actions_left(stage: Stage) -> nat {
    match stage {
        Stage::Idle => 0,
        Stage::CleaningUp { .. } | Stage::DiscardingTrash => 1,
        Stage::SyncingWrite { .. } | Stage::SyncingRemoval => 2,
        Stage::Replacing { .. } | Stage::RemovingFile | Stage::MovingToTrash { .. } => 3,
        Stage::CheckingDestination { .. } | Stage::CheckingFile => 4,
        Stage::WritingTemporary { .. } => 5,
        Stage::CreatingParent => 6,
        Stage::RecoveringTrash => 7,
        Stage::Recovering => 8,
    }
}

/// Every execution ends: with each action fewer are left, whatever the actions' outcomes.
pub proof fn law_every_execution_ends(job: Job, execution: ExecutionView, outcome: OutcomeView)
    requires
        execution_valid(job, execution),
        execution.stage != Stage::Idle,
    ensures
        actions_left(resume(job, execution, outcome).0.stage) < actions_left(execution.stage),
        resume(job, execution, outcome).1 is Finished <==> resume(job, execution, outcome).0.stage
            == Stage::Idle,
{
    lemma_resume_valid(job, execution, outcome);
}

/// A change that is not durable yet is made durable before anything else. If that fails, the
/// execution ends with that failure, and everything is as it was.
pub proof fn law_pending_change_is_made_durable_first(
    job: Job,
    execution: ExecutionView,
    error: ErrorView,
)
    requires
        execution_valid(job, execution),
        execution.stage == Stage::Idle,
        execution.state.pending_durability is Some,
    ensures
        begin(job, execution) == perform(
            execution,
            Stage::Recovering,
            job.sync(execution.state.pending_durability->0),
        ),
        resume(job, begin(job, execution).0, OutcomeView::Failed(error)) == finish(
            execution,
            Err(error),
        ),
{
}

/// A change stays pending until it was synced: it is settled only by the step after a sync that did
/// not fail, or by the step after the deletion of its trash file, which is asked for only after
/// such a sync.
pub proof fn law_pending_change_is_settled_only_by_a_sync(
    job: Job,
    execution: ExecutionView,
    outcome: OutcomeView,
)
    requires
        execution_valid(job, execution),
        execution.stage != Stage::Idle,
    ensures
        ({
            let next = resume(job, execution, outcome).0;
            let pending = execution.state.pending_durability;
            let sync_awaited = match execution.stage {
                Stage::Recovering | Stage::SyncingWrite { .. } | Stage::SyncingRemoval => true,
                _ => false,
            };
            let trash_awaited = match execution.stage {
                Stage::RecoveringTrash | Stage::DiscardingTrash => true,
                _ => false,
            };
            let trash_asked_for = match next.stage {
                Stage::RecoveringTrash | Stage::DiscardingTrash => true,
                _ => false,
            };
            &&& pending is Some && next.state.pending_durability != pending ==> (sync_awaited
                && !(outcome is Failed)) || trash_awaited
            &&& trash_asked_for ==> sync_awaited && !(outcome is Failed)
        }),
{
}

/// The execution after a pending change was made durable and its trash file, if there is one, was
/// deleted or could not be.
pub open spec fn after_recovery(
    job: Job,
    execution: ExecutionView,
    outcome: OutcomeView,
    trash_outcome: OutcomeView,
) -> (ExecutionView, StepView) {
    let (syncing, _) = begin(job, execution);
    let (synced, step) = resume(job, syncing, outcome);
    if execution.state.pending_durability->0.trash() is Some {
        resume(job, synced, trash_outcome)
    } else {
        (synced, step)
    }
}

/// An operation that made its change and could not make it durable is completed by executing it
/// again: the change is not made a second time.
pub proof fn law_pending_operation_is_completed_by_executing_it_again(
    job: Job,
    execution: ExecutionView,
    outcome: OutcomeView,
    trash_outcome: OutcomeView,
)
    requires
        execution_valid(job, execution),
        execution.stage == Stage::Idle,
        execution.state.pending_durability is Some,
        execution.state.pending_durability->0.spec_version() == job.version,
        !(outcome is Failed),
    ensures
        after_recovery(job, execution, outcome, trash_outcome).1 == StepView::Finished(
            Ok(FilesystemStoreOperationStatus::Applied),
        ),
        after_recovery(job, execution, outcome, trash_outcome).0.state
            == execution.state.durable(),
        execution.state.durable().latest_applied_version == Some(job.version),
{
}

/// An operation does not overtake a newer one whose change is pending: it makes that change durable
/// and is superseded by it.
pub proof fn law_pending_newer_operation_supersedes(
    job: Job,
    execution: ExecutionView,
    outcome: OutcomeView,
    trash_outcome: OutcomeView,
)
    requires
        execution_valid(job, execution),
        execution.stage == Stage::Idle,
        execution.state.pending_durability is Some,
        execution.state.pending_durability->0.spec_version() > job.version,
        !(outcome is Failed),
    ensures
        after_recovery(job, execution, outcome, trash_outcome).1 == StepView::Finished(
            Ok(FilesystemStoreOperationStatus::Superseded),
        ),
        after_recovery(job, execution, outcome, trash_outcome).0.state
            == execution.state.durable(),
{
}

/// Executing an operation that is applied, or one that a newer applied one has superseded, takes no
/// action and changes nothing.
pub proof fn law_applied_and_superseded_operations_take_no_action(
    job: Job,
    execution: ExecutionView,
)
    requires
        execution_valid(job, execution),
        execution.stage == Stage::Idle,
        execution.state.pending_durability is None,
        execution.state.latest_applied_version is Some,
        execution.state.latest_applied_version->0 >= job.version,
    ensures
        begin(job, execution).0 == execution,
        begin(job, execution).1 == StepView::Finished(
            Ok(
                if execution.state.latest_applied_version->0 == job.version {
                    FilesystemStoreOperationStatus::Applied
                } else {
                    FilesystemStoreOperationStatus::Superseded
                },
            ),
        ),
{
}

/// Executing an operation once more after it was applied gives the same answer, without any action.
pub proof fn law_applied_operation_is_not_repeated(
    job: Job,
    execution: ExecutionView,
    outcome: OutcomeView,
)
    requires
        execution_valid(job, execution),
        execution.stage != Stage::Idle,
        resume(job, execution, outcome).1 == StepView::Finished(
            Ok(FilesystemStoreOperationStatus::Applied),
        ),
    ensures
        begin(job, resume(job, execution, outcome).0) == resume(job, execution, outcome),
{
}

/// An operation that failed before it changed the file does not hold up an older one: the older
/// one may change the file.
pub proof fn law_failed_newer_operation_lets_an_older_one_proceed(
    job: Job,
    execution: ExecutionView,
)
    requires
        execution_valid(job, execution),
        execution.stage == Stage::Idle,
        execution.state.pending_durability is None,
        execution.state.latest_applied_version matches Some(applied) ==> applied < job.version,
        execution.state.latest_operation is Some,
        execution.state.latest_operation->0.version > job.version,
        execution.state.latest_operation->0.status
            == FilesystemStoreOperationAttemptStatus::Failed,
    ensures
        begin(job, execution).1 is Perform,
        begin(job, execution).0.state == execution.state,
{
}

/// An operation that finds a newer one under way is refused, and nothing changes.
pub proof fn law_newer_operation_under_way_blocks(job: Job, execution: ExecutionView)
    requires
        execution_valid(job, execution),
        execution.stage == Stage::Idle,
        execution.state.pending_durability is None,
        execution.state.latest_applied_version matches Some(applied) ==> applied < job.version,
        execution.state.latest_operation is Some,
        execution.state.latest_operation->0.version > job.version,
        execution.state.latest_operation->0.status
            == FilesystemStoreOperationAttemptStatus::Started,
    ensures
        begin(job, execution).0 == execution,
        begin(job, execution).1 == StepView::Finished(Err(blocked_error())),
{
}

/// Whether no operation counts as under way.
pub open spec fn settled(state: FilesystemStoreOperationState) -> bool {
    state.latest_operation matches Some(latest) ==> latest.status
        != FilesystemStoreOperationAttemptStatus::Started
}

} // verus!
