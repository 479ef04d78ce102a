//! Laws on what an execution asks for before it ends.

use crate::action::{ActionView, StepView};
use crate::execution::{ExecutionView, Job, MutationView, Stage};
use crate::execution::execution_valid;
use crate::laws::disk::{Disk, Move, Situation};
use crate::laws::disk::{awaits, lemma_reached, reached, runs, touched};
use crate::laws::execution::{actions_left, law_every_execution_ends};
use crate::laws::names::{is_key_file, law_artifacts_are_told_from_keys};
use crate::path::Artifact;
use crate::path::artifact_path;
use crate::state::{FilesystemStoreOperationStatus, PendingDurability, Platform};
use vstd::prelude::*;

verus! {

/// The situation of an execution after its first `n` moves.
pub open spec fn at(
    job: Job,
    execution: ExecutionView,
    disk: Disk,
    moves: Seq<Move>,
    n: int,
) -> Situation {
    reached(job, execution, disk, moves.take(n))
}

/// Whether the execution asks for `action` after its first `n` moves.
pub open spec fn asks_at(
    job: Job,
    execution: ExecutionView,
    disk: Disk,
    moves: Seq<Move>,
    n: int,
    action: ActionView,
) -> bool {
    at(job, execution, disk, moves, n).step == StepView::Perform(action)
}

/// Whether the change that the operation made to its file is made durable by the move with index
/// `n`: the sync of that very change is asked for and does not fail. It is the directory of the
/// file that is synced, or else the file itself or the trash file that it was moved to.
pub open spec fn synced_at(
    job: Job,
    execution: ExecutionView,
    disk: Disk,
    moves: Seq<Move>,
    n: int,
) -> bool {
    let pending = at(job, execution, disk, moves, n).execution.state.pending_durability;
    &&& match pending {
        Some(PendingDurability::Directory { version }) => {
            &&& version == job.version
            &&& asks_at(
                job,
                execution,
                disk,
                moves,
                n,
                ActionView::SyncDirectory { path: job.dest.drop_last() },
            )
        },
        Some(PendingDurability::File { version, trash }) => {
            &&& version == job.version
            &&& asks_at(
                job,
                execution,
                disk,
                moves,
                n,
                ActionView::SyncFile {
                    path: match trash {
                        Some(number) => artifact_path(job.dest, number as nat, Artifact::Trash),
                        None => job.dest,
                    },
                },
            )
        },
        None => false,
    }
    &&& !(moves[n].outcome is Failed)
}

/// One more move leads to the next situation.
proof fn lemma_at(job: Job, execution: ExecutionView, disk: Disk, moves: Seq<Move>, n: int)
    requires
        runs(job, execution, disk, moves),
        0 <= n <= moves.len(),
    ensures
        runs(job, execution, disk, moves.take(n)),
        n < moves.len() ==> {
            &&& at(job, execution, disk, moves, n + 1) == at(job, execution, disk, moves, n).next(
                job,
                moves[n],
            )
            &&& at(job, execution, disk, moves, n).allows(job, moves[n])
        },
    decreases moves.len() - n,
{
    if n == moves.len() {
        assert(moves.take(n) =~= moves);
    } else {
        lemma_at(job, execution, disk, moves, n + 1);
        assert(moves.take(n + 1).drop_last() =~= moves.take(n));
        assert(moves.take(n + 1).last() == moves[n]);
    }
}

/// Where an execution that has changed its file stands: before the sync, after a failure, or after
/// the sync.
spec fn past_change(job: Job, now: Situation, synced: bool) -> bool {
    let pending = now.execution.state.pending_durability;
    match now.execution.stage {
        Stage::SyncingWrite { .. } | Stage::SyncingRemoval => {
            &&& pending is Some
            &&& pending->0.spec_version() == job.version
            &&& now.step == StepView::Perform(job.sync(pending->0))
        },
        Stage::CleaningUp { .. } => now.execution.failure is Some || synced,
        Stage::DiscardingTrash => synced,
        Stage::Idle => (now.step matches StepView::Finished(Err(_))) || synced,
        _ => false,
    }
}

/// Whether the sync is awaited.
spec fn syncing(now: Situation) -> bool {
    match now.execution.stage {
        Stage::SyncingWrite { .. } | Stage::SyncingRemoval => true,
        _ => false,
    }
}

/// After the action that changes the file the sync is awaited.
proof fn lemma_change(job: Job, now: Situation, happening: Move, action: ActionView)
    requires
        is_key_file(job.dest),
        execution_valid(job, now.execution),
        now.step == StepView::Perform(action),
        awaits(job, now.execution, action),
        touched(action, job.dest),
        !(happening.outcome is Failed),
        !(job.mutation == MutationView::Remove { lazy: true }),
    ensures
        syncing(now.next(job, happening)),
        past_change(job, now.next(job, happening), false),
{
    match now.execution.stage {
        Stage::WritingTemporary { number } | Stage::CleaningUp { number } => {
            law_artifacts_are_told_from_keys(job.dest, number as nat, Artifact::Temporary);
        },
        Stage::RecoveringTrash | Stage::DiscardingTrash => {
            let number = now.execution.state.pending_durability->0.trash()->0;
            law_artifacts_are_told_from_keys(job.dest, number as nat, Artifact::Trash);
        },
        _ => {},
    }
}

/// An execution that has changed its file goes on to the sync, and from there to its end.
proof fn lemma_after_change(job: Job, now: Situation, happening: Move, synced: bool)
    requires
        execution_valid(job, now.execution),
        now.step is Perform,
        now.execution.stage != Stage::Idle,
        past_change(job, now, synced),
    ensures
        past_change(
            job,
            now.next(job, happening),
            synced || (syncing(now) && !(happening.outcome is Failed)),
        ),
{
}

/// Whether the change was made durable between the moves with the indices `i` and `n`.
spec fn synced_between(
    job: Job,
    execution: ExecutionView,
    disk: Disk,
    moves: Seq<Move>,
    i: int,
    n: int,
) -> bool {
    exists|j: int| i < j < n && #[trigger] synced_at(job, execution, disk, moves, j)
}

/// An execution that has changed its file goes on to the sync, and from there to its end.
proof fn lemma_past_change(
    job: Job,
    execution: ExecutionView,
    disk: Disk,
    moves: Seq<Move>,
    i: int,
    action: ActionView,
    n: int,
)
    requires
        runs(job, execution, disk, moves),
        0 <= i < n <= moves.len(),
        asks_at(job, execution, disk, moves, i, action),
        touched(action, job.dest),
        !(moves[i].outcome is Failed),
        !(job.mutation == MutationView::Remove { lazy: true }),
    ensures
        past_change(
            job,
            at(job, execution, disk, moves, n),
            synced_between(job, execution, disk, moves, i, n),
        ),
    decreases n,
{
    lemma_at(job, execution, disk, moves, n - 1);
    lemma_reached(job, execution, disk, moves.take(n - 1));
    let before = at(job, execution, disk, moves, n - 1);
    if n == i + 1 {
        lemma_change(job, before, moves[i], action);
    } else {
        lemma_past_change(job, execution, disk, moves, i, action, n - 1);
        let synced = synced_between(job, execution, disk, moves, i, n - 1);
        lemma_after_change(job, before, moves[n - 1], synced);
        if syncing(before) && !(moves[n - 1].outcome is Failed) {
            assert(synced_at(job, execution, disk, moves, n - 1));
        }
        if synced {
            let j = choose|j: int|
                i < j < n - 1 && #[trigger] synced_at(job, execution, disk, moves, j);
            assert(synced_at(job, execution, disk, moves, j));
        }
    }
}

/// A change that is reported as applied was made durable before, unless it is a lazy removal: after
/// the action that changed the file its sync was asked for and did not fail, and no later action
/// touched the file.
pub proof fn law_applied_change_was_synced(
    job: Job,
    execution: ExecutionView,
    disk: Disk,
    moves: Seq<Move>,
    i: int,
    action: ActionView,
)
    requires
        runs(job, execution, disk, moves),
        0 <= i < moves.len(),
        asks_at(job, execution, disk, moves, i, action),
        touched(action, job.dest),
        !(moves[i].outcome is Failed),
        !(job.mutation == MutationView::Remove { lazy: true }),
        reached(job, execution, disk, moves).step == StepView::Finished(
            Ok(FilesystemStoreOperationStatus::Applied),
        ),
    ensures
        exists|j: int|
            i < j < moves.len() && #[trigger] synced_at(job, execution, disk, moves, j),
        forall|j: int, later: ActionView|
            i < j < moves.len() && #[trigger] asks_at(job, execution, disk, moves, j, later)
                ==> !touched(later, job.dest),
{
    let n = moves.len() as int;
    assert(moves.take(n) =~= moves);
    lemma_past_change(job, execution, disk, moves, i, action, n);
    lemma_reached(job, execution, disk, moves);
    assert forall|j: int, later: ActionView|
        i < j < moves.len() && #[trigger] asks_at(
            job,
            execution,
            disk,
            moves,
            j,
            later,
        ) implies !touched(later, job.dest) by {
        lemma_past_change(job, execution, disk, moves, i, action, j);
        lemma_at(job, execution, disk, moves, j);
        lemma_reached(job, execution, disk, moves.take(j));
        let now = at(job, execution, disk, moves, j).execution;
        match now.stage {
            Stage::CleaningUp { number } => {
                law_artifacts_are_told_from_keys(job.dest, number as nat, Artifact::Temporary);
            },
            Stage::DiscardingTrash => {
                let number = now.state.pending_durability->0.trash()->0;
                law_artifacts_are_told_from_keys(job.dest, number as nat, Artifact::Trash);
            },
            _ => {},
        }
    }
}

/// Fewer actions are left after more moves.
proof fn lemma_fewer_left(
    job: Job,
    execution: ExecutionView,
    disk: Disk,
    moves: Seq<Move>,
    i: int,
    j: int,
)
    requires
        runs(job, execution, disk, moves),
        0 <= i < j <= moves.len(),
    ensures
        actions_left(at(job, execution, disk, moves, j).execution.stage) < actions_left(
            at(job, execution, disk, moves, i).execution.stage,
        ),
    decreases j,
{
    lemma_at(job, execution, disk, moves, j - 1);
    lemma_reached(job, execution, disk, moves.take(j - 1));
    let before = at(job, execution, disk, moves, j - 1);
    let happening = moves[j - 1];
    law_every_execution_ends(
        job,
        ExecutionView { counter: happening.counter, ..before.execution },
        happening.outcome,
    );
    if i < j - 1 {
        lemma_fewer_left(job, execution, disk, moves, i, j - 1);
    }
}

/// What is synced after the action that changes the file.
proof fn lemma_sync_of_change(job: Job, now: Situation, happening: Move, action: ActionView)
    requires
        is_key_file(job.dest),
        execution_valid(job, now.execution),
        now.step == StepView::Perform(action),
        awaits(job, now.execution, action),
        touched(action, job.dest),
        !(happening.outcome is Failed),
        !(job.mutation == MutationView::Remove { lazy: true }),
    ensures
        job.platform == Platform::Windows && job.mutation is Remove ==> action is MoveFile,
        now.next(job, happening).step == StepView::Perform(
            match job.platform {
                Platform::Unix => ActionView::SyncDirectory { path: job.dest.drop_last() },
                Platform::Windows => ActionView::SyncFile {
                    path: if job.mutation is Remove {
                        action->MoveFile_to
                    } else {
                        job.dest
                    },
                },
            },
        ),
{
    match now.execution.stage {
        Stage::WritingTemporary { number } | Stage::CleaningUp { number } => {
            law_artifacts_are_told_from_keys(job.dest, number as nat, Artifact::Temporary);
        },
        Stage::RecoveringTrash | Stage::DiscardingTrash => {
            let number = now.execution.state.pending_durability->0.trash()->0;
            law_artifacts_are_told_from_keys(job.dest, number as nat, Artifact::Trash);
        },
        _ => {},
    }
}

/// The very action that follows the change is its sync, and it does not fail if the operation is
/// reported as applied, unless it is a lazy removal. On Unix the directory of the file is synced,
/// however deep it lies. On Windows a file that was written is synced itself, and of a file that
/// was removed the trash file that it was moved to.
pub proof fn law_change_is_synced_where_it_lies(
    job: Job,
    execution: ExecutionView,
    disk: Disk,
    moves: Seq<Move>,
    i: int,
    action: ActionView,
)
    requires
        runs(job, execution, disk, moves),
        0 <= i < moves.len(),
        asks_at(job, execution, disk, moves, i, action),
        touched(action, job.dest),
        !(moves[i].outcome is Failed),
        !(job.mutation == MutationView::Remove { lazy: true }),
        reached(job, execution, disk, moves).step == StepView::Finished(
            Ok(FilesystemStoreOperationStatus::Applied),
        ),
    ensures
        i + 1 < moves.len(),
        !(moves[i + 1].outcome is Failed),
        job.platform == Platform::Windows && job.mutation is Remove ==> action is MoveFile,
        asks_at(
            job,
            execution,
            disk,
            moves,
            i + 1,
            match job.platform {
                Platform::Unix => ActionView::SyncDirectory { path: job.dest.drop_last() },
                Platform::Windows => ActionView::SyncFile {
                    path: if job.mutation is Remove {
                        action->MoveFile_to
                    } else {
                        job.dest
                    },
                },
            },
        ),
{
    let n = moves.len() as int;
    assert(moves.take(n) =~= moves);
    lemma_at(job, execution, disk, moves, i);
    lemma_reached(job, execution, disk, moves.take(i));
    let now = at(job, execution, disk, moves, i);
    lemma_sync_of_change(job, now, moves[i], action);
    lemma_change(job, now, moves[i], action);
    law_applied_change_was_synced(job, execution, disk, moves, i, action);
    let j = choose|j: int|
        i < j < moves.len() && #[trigger] synced_at(job, execution, disk, moves, j);
    if j > i + 1 {
        lemma_fewer_left(job, execution, disk, moves, i + 1, j);
        lemma_past_change(job, execution, disk, moves, i, action, j);
        lemma_at(job, execution, disk, moves, j);
        lemma_reached(job, execution, disk, moves.take(j));
    }
}

/// Whether the temporary file with the given number is being written or still needed.
spec fn needs_temporary(now: Situation, written: usize) -> bool {
    match now.execution.stage {
        Stage::WritingTemporary { number }
        | Stage::CheckingDestination { number }
        | Stage::Replacing { number }
        | Stage::SyncingWrite { number } => number == written,
        _ => false,
    }
}

/// A temporary file is needed until it is asked to be deleted.
proof fn lemma_needs_temporary(job: Job, now: Situation, happening: Move, written: usize)
    requires
        execution_valid(job, now.execution),
        needs_temporary(now, written),
    ensures
        needs_temporary(now.next(job, happening), written) || now.next(job, happening).step
            == StepView::Perform(ActionView::RemoveFile { path: job.temporary(written) }),
{
}

/// An execution that has written its temporary file goes on until it asks to delete it.
proof fn lemma_past_writing(
    job: Job,
    execution: ExecutionView,
    disk: Disk,
    moves: Seq<Move>,
    i: int,
    written: usize,
    n: int,
)
    requires
        runs(job, execution, disk, moves),
        0 <= i <= n <= moves.len(),
        needs_temporary(at(job, execution, disk, moves, i), written),
    ensures
        needs_temporary(at(job, execution, disk, moves, n), written) || exists|j: int|
            i < j <= n && #[trigger] asks_at(
                job,
                execution,
                disk,
                moves,
                j,
                ActionView::RemoveFile { path: job.temporary(written) },
            ),
    decreases n,
{
    let action = ActionView::RemoveFile { path: job.temporary(written) };
    if n > i {
        lemma_past_writing(job, execution, disk, moves, i, written, n - 1);
        if needs_temporary(at(job, execution, disk, moves, n - 1), written) {
            lemma_at(job, execution, disk, moves, n - 1);
            lemma_reached(job, execution, disk, moves.take(n - 1));
            lemma_needs_temporary(
                job,
                at(job, execution, disk, moves, n - 1),
                moves[n - 1],
                written,
            );
            if !needs_temporary(at(job, execution, disk, moves, n), written) {
                assert(asks_at(job, execution, disk, moves, n, action));
            }
        } else {
            let j = choose|j: int|
                i < j <= n - 1 && #[trigger] asks_at(job, execution, disk, moves, j, action);
            assert(asks_at(job, execution, disk, moves, j, action));
        }
    }
}

/// Only a temporary file is asked to be written.
proof fn lemma_written_is_temporary(job: Job, execution: ExecutionView, action: ActionView)
    requires
        awaits(job, execution, action),
        action is WriteFile,
    ensures
        execution.stage is WritingTemporary,
        action->WriteFile_path == job.temporary(execution.stage->WritingTemporary_number),
{
}

/// No temporary file is forgotten: whenever an execution asks to write one, it asks to delete what
/// may be left of it before it ends, whether it ends well or not.
pub proof fn law_temporary_file_is_deleted(
    job: Job,
    execution: ExecutionView,
    disk: Disk,
    moves: Seq<Move>,
    i: int,
    action: ActionView,
)
    requires
        runs(job, execution, disk, moves),
        0 <= i < moves.len(),
        asks_at(job, execution, disk, moves, i, action),
        action is WriteFile,
        reached(job, execution, disk, moves).step is Finished,
    ensures
        exists|j: int|
            i < j < moves.len() && #[trigger] asks_at(
                job,
                execution,
                disk,
                moves,
                j,
                ActionView::RemoveFile { path: action->WriteFile_path },
            ),
{
    let n = moves.len() as int;
    assert(moves.take(n) =~= moves);
    lemma_at(job, execution, disk, moves, i);
    lemma_reached(job, execution, disk, moves.take(i));
    lemma_reached(job, execution, disk, moves);
    let now = at(job, execution, disk, moves, i).execution;
    lemma_written_is_temporary(job, now, action);
    let written = now.stage->WritingTemporary_number;
    lemma_past_writing(job, execution, disk, moves, i, written, n);
    let path = action->WriteFile_path;
    let j = choose|j: int|
        i < j <= n && #[trigger] asks_at(
            job,
            execution,
            disk,
            moves,
            j,
            ActionView::RemoveFile { path },
        );
    assert(asks_at(job, execution, disk, moves, j, ActionView::RemoveFile { path }));
}

} // verus!
