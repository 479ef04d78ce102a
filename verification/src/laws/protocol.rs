//! Laws on the actions that an execution asks for, one after the other.

use crate::action::{ActionView, OutcomeView, StepView};
use crate::error::{ErrorKind, ErrorView};
use crate::execution::{ExecutionView, Job, MutationView, Stage};
use crate::execution::{begin, execution_valid, resume};
use crate::execution::{lemma_begin_valid, lemma_resume_valid};
use crate::laws::disk::awaits;
use crate::laws::execution::actions_left;
use crate::laws::names::{is_key_file, law_artifacts_are_told_from_keys};
use crate::path::{Artifact, PathView};
use crate::path::artifact_path;
use crate::state::{
    FilesystemStoreOperationAttempt, FilesystemStoreOperationAttemptStatus,
    FilesystemStoreOperationState, FilesystemStoreOperationStatus, PendingDurability, Platform,
};
use vstd::prelude::*;

verus! {

/// What an execution is told after an action.
pub struct Reply {
    pub outcome: OutcomeView,
    /// The number of the next artifact by then. Executions on other files may have used up some.
    pub counter: usize,
}

/// What an execution came to after some replies.
pub open spec fn course(job: Job, execution: ExecutionView, replies: Seq<Reply>) -> (
    ExecutionView,
    StepView,
)
    decreases replies.len(),
{
    if replies.len() == 0 {
        begin(job, execution)
    } else {
        let (now, _) = course(job, execution, replies.drop_last());
        let reply = replies.last();
        resume(job, ExecutionView { counter: reply.counter, ..now }, reply.outcome)
    }
}

/// Whether every reply answers an action.
pub open spec fn follows(job: Job, execution: ExecutionView, replies: Seq<Reply>) -> bool
    decreases replies.len(),
{
    replies.len() == 0 || {
        &&& follows(job, execution, replies.drop_last())
        &&& course(job, execution, replies.drop_last()).1 is Perform
    }
}

/// Whether an execution begins with nothing left to be made durable.
pub open spec fn unencumbered(execution: ExecutionView) -> bool {
    &&& execution.stage == Stage::Idle
    &&& execution.failure is None
    &&& execution.state.pending_durability is None
}

/// Whether the version is neither applied nor older than an applied one.
pub open spec fn not_applied(job: Job, state: FilesystemStoreOperationState) -> bool {
    state.latest_applied_version is None || state.latest_applied_version->0 < job.version
}

/// Whether a newer operation on the same file is under way.
pub open spec fn overtaken(job: Job, state: FilesystemStoreOperationState) -> bool {
    &&& state.latest_operation is Some
    &&& state.latest_operation->0.version > job.version
    &&& state.latest_operation->0.status == FilesystemStoreOperationAttemptStatus::Started
}

/// With nothing left to be made durable, the versions decide how an execution begins: a newer
/// applied version supersedes the operation, its own applied version leaves nothing to do, a newer
/// operation under way refuses it, and otherwise it is recorded as started, unless a newer one
/// was, and goes on to its first action.
pub proof fn law_versions_decide(job: Job, execution: ExecutionView)
    requires
        unencumbered(execution),
    ensures
        ({
            let state = execution.state;
            let (now, step) = begin(job, execution);
            if state.latest_applied_version is Some && state.latest_applied_version->0
                > job.version {
                &&& step == StepView::Finished(Ok(FilesystemStoreOperationStatus::Superseded))
                &&& now == execution
            } else if state.latest_applied_version is Some && state.latest_applied_version->0
                == job.version {
                &&& step == StepView::Finished(Ok(FilesystemStoreOperationStatus::Applied))
                &&& now == execution
            } else if overtaken(job, state) {
                &&& step == StepView::Finished(
                    Err(
                        ErrorView {
                            kind: ErrorKind::WouldBlock,
                            message: Some(
                                "Filesystem store operation is blocked by a newer operation"@,
                            ),
                        },
                    ),
                )
                &&& now == execution
            } else {
                &&& step == StepView::Perform(
                    match job.mutation {
                        MutationView::Write(_) => ActionView::CreateDirAll {
                            path: job.dest.drop_last(),
                        },
                        MutationView::Remove { .. } => ActionView::IsFile { path: job.dest },
                    },
                )
                &&& now.counter == execution.counter
                &&& now.state.latest_applied_version == state.latest_applied_version
                &&& now.state.pending_durability == state.pending_durability
                &&& now.state.latest_operation == if state.latest_operation is Some
                    && state.latest_operation->0.version > job.version {
                    state.latest_operation
                } else {
                    Some(
                        FilesystemStoreOperationAttempt {
                            version: job.version,
                            status: FilesystemStoreOperationAttemptStatus::Started,
                        },
                    )
                }
            }
        }),
{
}

/// An execution that finds a change not yet durable first asks to sync it: on the directory of the
/// file, on the trash file or on the file itself. If that fails, it ends with that failure and
/// everything is as it was. Otherwise a trash file is deleted, the change counts as applied, and
/// the execution begins as with nothing left to be made durable.
pub proof fn law_pending_change_is_recovered(
    job: Job,
    execution: ExecutionView,
    pending: PendingDurability,
    reply: Reply,
    trash_reply: Reply,
)
    requires
        execution.stage == Stage::Idle,
        execution.failure is None,
        execution.state.valid(),
        execution.state.pending_durability == Some(pending),
    ensures
        ({
            let synced = course(job, execution, seq![reply]);
            let discarded = course(job, execution, seq![reply, trash_reply]);
            let (version, sync) = match pending {
                PendingDurability::Directory { version } => (
                    version,
                    ActionView::SyncDirectory { path: job.dest.drop_last() },
                ),
                PendingDurability::File { version, trash: Some(number) } => (
                    version,
                    ActionView::SyncFile {
                        path: artifact_path(job.dest, number as nat, Artifact::Trash),
                    },
                ),
                PendingDurability::File { version, trash: None } => (
                    version,
                    ActionView::SyncFile { path: job.dest },
                ),
            };
            let latest = execution.state.latest_operation->0;
            let settled = FilesystemStoreOperationState {
                latest_operation: Some(
                    FilesystemStoreOperationAttempt {
                        version: latest.version,
                        status: if latest.version == version {
                            FilesystemStoreOperationAttemptStatus::Applied
                        } else {
                            latest.status
                        },
                    },
                ),
                latest_applied_version: Some(version),
                pending_durability: None,
            };
            &&& course(job, execution, seq![]).1 == StepView::Perform(sync)
            &&& course(job, execution, seq![]).0.state == execution.state
            &&& if reply.outcome is Failed {
                &&& synced.1 == StepView::Finished(Err(reply.outcome->Failed_0))
                &&& synced.0 == (ExecutionView { counter: reply.counter, ..execution })
            } else {
                match pending {
                    PendingDurability::File { trash: Some(number), .. } => {
                        &&& synced.1 == StepView::Perform(
                            ActionView::RemoveFile {
                                path: artifact_path(job.dest, number as nat, Artifact::Trash),
                            },
                        )
                        &&& synced.0.state == execution.state
                        &&& discarded == begin(
                            job,
                            ExecutionView {
                                counter: trash_reply.counter,
                                state: settled,
                                ..execution
                            },
                        )
                    },
                    _ => synced == begin(
                        job,
                        ExecutionView { counter: reply.counter, state: settled, ..execution },
                    ),
                }
            }
        }),
{
    let none = Seq::<Reply>::empty();
    let one = seq![reply];
    let two = seq![reply, trash_reply];
    assert(one.drop_last() =~= none);
    assert(two.drop_last() =~= one);
    assert(one.last() == reply && two.last() == trash_reply);
}

/// The number after the given one. After the largest comes zero.
pub open spec fn following(number: usize) -> int {
    if number == usize::MAX {
        0
    } else {
        number + 1
    }
}

/// The actions of a write, where the temporary file bears the given number and `present` tells
/// whether there is a file to replace.
pub open spec fn write_plan(job: Job, contents: Seq<u8>, number: usize, present: bool) -> Seq<
    ActionView,
> {
    let directory = job.dest.drop_last();
    let temporary = artifact_path(job.dest, number as nat, Artifact::Temporary);
    match job.platform {
        Platform::Unix => seq![
            ActionView::CreateDirAll { path: directory },
            ActionView::WriteFile { path: temporary, contents },
            ActionView::Rename { from: temporary, to: job.dest },
            ActionView::SyncDirectory { path: directory },
            ActionView::RemoveFile { path: temporary },
        ],
        Platform::Windows => seq![
            ActionView::CreateDirAll { path: directory },
            ActionView::WriteFile { path: temporary, contents },
            ActionView::Exists { path: job.dest },
            if present {
                ActionView::ReplaceFile { from: temporary, to: job.dest }
            } else {
                ActionView::MoveFile { from: temporary, to: job.dest }
            },
            ActionView::SyncFile { path: job.dest },
            ActionView::RemoveFile { path: temporary },
        ],
    }
}

/// The actions of a removal, where the trash file bears the given number and `present` tells
/// whether there is a file to remove.
pub open spec fn remove_plan(job: Job, lazy: bool, number: usize, present: bool) -> Seq<
    ActionView,
> {
    let directory = job.dest.drop_last();
    let trash = artifact_path(job.dest, number as nat, Artifact::Trash);
    if !present {
        seq![ActionView::IsFile { path: job.dest }]
    } else if lazy {
        seq![
            ActionView::IsFile { path: job.dest },
            ActionView::RemoveFile { path: job.dest },
        ]
    } else {
        match job.platform {
            Platform::Unix => seq![
                ActionView::IsFile { path: job.dest },
                ActionView::RemoveFile { path: job.dest },
                ActionView::SyncDirectory { path: directory },
            ],
            Platform::Windows => seq![
                ActionView::IsFile { path: job.dest },
                ActionView::MoveFile { from: job.dest, to: trash },
                ActionView::SyncFile { path: trash },
                ActionView::RemoveFile { path: trash },
            ],
        }
    }
}

/// Whether an execution cannot succeed if the action fails. A question that cannot be answered is
/// taken for answered in the negative, and that an artifact stays does not matter.
pub open spec fn essential(dest: PathView, action: ActionView) -> bool {
    match action {
        ActionView::RemoveFile { path } => path == dest,
        ActionView::IsFile { .. } => false,
        ActionView::Exists { .. } => false,
        _ => true,
    }
}

/// Whether the reply with index `i` is the failure of an action that matters.
pub open spec fn fails_at(
    job: Job,
    execution: ExecutionView,
    replies: Seq<Reply>,
    i: int,
) -> bool {
    &&& replies[i].outcome is Failed
    &&& course(job, execution, replies.take(i)).1 is Perform
    &&& essential(job.dest, course(job, execution, replies.take(i)).1->Perform_0)
}

/// Whether none of the replies is the failure of an action that matters.
pub open spec fn unhindered(job: Job, execution: ExecutionView, replies: Seq<Reply>) -> bool {
    forall|i: int| 0 <= i < replies.len() ==> !#[trigger] fails_at(job, execution, replies, i)
}

/// The stages of a write.
spec fn write_stages(job: Job, number: usize) -> Seq<Stage> {
    match job.platform {
        Platform::Unix => seq![
            Stage::CreatingParent,
            Stage::WritingTemporary { number },
            Stage::Replacing { number },
            Stage::SyncingWrite { number },
            Stage::CleaningUp { number },
        ],
        Platform::Windows => seq![
            Stage::CreatingParent,
            Stage::WritingTemporary { number },
            Stage::CheckingDestination { number },
            Stage::Replacing { number },
            Stage::SyncingWrite { number },
            Stage::CleaningUp { number },
        ],
    }
}

/// The stages of a removal.
spec fn remove_stages(job: Job, lazy: bool, number: usize, present: bool) -> Seq<Stage> {
    if !present {
        seq![Stage::CheckingFile]
    } else if lazy {
        seq![Stage::CheckingFile, Stage::RemovingFile]
    } else {
        match job.platform {
            Platform::Unix => seq![
                Stage::CheckingFile,
                Stage::RemovingFile,
                Stage::SyncingRemoval,
            ],
            Platform::Windows => seq![
                Stage::CheckingFile,
                Stage::MovingToTrash { number },
                Stage::SyncingRemoval,
                Stage::DiscardingTrash,
            ],
        }
    }
}

/// The first replies of a course are a course.
proof fn lemma_shorter(job: Job, execution: ExecutionView, replies: Seq<Reply>)
    requires
        replies.len() > 0,
        follows(job, execution, replies),
    ensures
        follows(job, execution, replies.drop_last()),
        course(job, execution, replies.drop_last()).1 is Perform,
        course(job, execution, replies) == resume(
            job,
            ExecutionView {
                counter: replies.last().counter,
                ..course(job, execution, replies.drop_last()).0
            },
            replies.last().outcome,
        ),
        replies.take(replies.len() - 1) == replies.drop_last(),
        unhindered(job, execution, replies) ==> unhindered(job, execution, replies.drop_last()),
        unhindered(job, execution, replies) ==> !(replies.last().outcome is Failed && essential(
            job.dest,
            course(job, execution, replies.drop_last()).1->Perform_0,
        )),
{
    let before = replies.drop_last();
    assert(replies.take(replies.len() - 1) =~= before);
    if unhindered(job, execution, replies) {
        assert(!fails_at(job, execution, replies, replies.len() - 1));
        assert forall|i: int| 0 <= i < before.len() implies !#[trigger] fails_at(
            job,
            execution,
            before,
            i,
        ) by {
            assert(!fails_at(job, execution, replies, i));
            assert(before.take(i) =~= replies.take(i));
            assert(before[i] == replies[i]);
        }
    }
}

/// A write goes from one of its stages to the next.
#[verifier::spinoff_prover]
proof fn lemma_write_step(
    job: Job,
    contents: Seq<u8>,
    number: usize,
    present: bool,
    n: int,
    before: ExecutionView,
    reply: Reply,
)
    requires
        job.mutation == MutationView::Write(contents),
        0 <= n < write_stages(job, number).len(),
        before.stage == write_stages(job, number)[n],
        before.failure is None,
        !(reply.outcome is Failed && essential(
            job.dest,
            write_plan(job, contents, number, present)[n],
        )),
        n == 0 ==> number == reply.counter,
        n == 2 ==> present == (reply.outcome == OutcomeView::Present(true)),
    ensures
        ({
            let plan = write_plan(job, contents, number, present);
            let (now, step) = resume(
                job,
                ExecutionView { counter: reply.counter, ..before },
                reply.outcome,
            );
            &&& now.failure is None
            &&& if n + 1 < plan.len() {
                &&& now.stage == write_stages(job, number)[n + 1]
                &&& step == StepView::Perform(plan[n + 1])
            } else {
                step == StepView::Finished(Ok(FilesystemStoreOperationStatus::Applied))
            }
            &&& now.counter == if n == 0 {
                following(number)
            } else {
                reply.counter as int
            }
        }),
{
}

/// A write takes its stages one after the other.
#[verifier::spinoff_prover]
proof fn lemma_write(job: Job, execution: ExecutionView, contents: Seq<u8>, replies: Seq<Reply>)
    requires
        unencumbered(execution),
        not_applied(job, execution.state),
        !overtaken(job, execution.state),
        job.mutation == MutationView::Write(contents),
        follows(job, execution, replies),
        unhindered(job, execution, replies),
    ensures
        ({
            let number = replies[0].counter;
            let present = replies[2].outcome == OutcomeView::Present(true);
            let plan = write_plan(job, contents, number, present);
            let n = replies.len() as int;
            let (now, step) = course(job, execution, replies);
            &&& n <= plan.len()
            &&& now.failure is None
            &&& if n < plan.len() {
                now.stage == write_stages(job, number)[n] && step == StepView::Perform(plan[n])
            } else {
                step == StepView::Finished(Ok(FilesystemStoreOperationStatus::Applied))
            }
            &&& n > 0 ==> now.counter == if n == 1 {
                following(number)
            } else {
                replies.last().counter as int
            }
        }),
    decreases replies.len(),
{
    if replies.len() > 0 {
        let before = replies.drop_last();
        lemma_shorter(job, execution, replies);
        lemma_write(job, execution, contents, before);
        if before.len() > 0 {
            assert(before[0] == replies[0]);
        }
        if before.len() > 2 {
            assert(before[2] == replies[2]);
        }
        if before.len() == 2 {
            assert(replies[2] == replies.last());
        }
        if before.len() == 0 {
            assert(replies[0] == replies.last());
        }
        lemma_write_step(
            job,
            contents,
            replies[0].counter,
            replies[2].outcome == OutcomeView::Present(true),
            before.len() as int,
            course(job, execution, before).0,
            replies.last(),
        );
    }
}

/// A write that nothing hinders goes like this: the directory is created, the value is written to a
/// temporary file that bears the number of the next artifact, the temporary file takes the place of
/// the file, the directory (on Windows, the file) is synced, what may be left of the temporary file
/// is deleted, and the write is applied. The number is used up.
pub proof fn law_write_goes_by_its_plan(
    job: Job,
    execution: ExecutionView,
    contents: Seq<u8>,
    replies: Seq<Reply>,
)
    requires
        unencumbered(execution),
        not_applied(job, execution.state),
        !overtaken(job, execution.state),
        job.mutation == MutationView::Write(contents),
        follows(job, execution, replies),
        unhindered(job, execution, replies),
    ensures
        ({
            let number = replies[0].counter;
            let present = replies[2].outcome == OutcomeView::Present(true);
            let plan = write_plan(job, contents, number, present);
            let n = replies.len() as int;
            let (now, step) = course(job, execution, replies);
            &&& n <= plan.len()
            &&& step == if n < plan.len() {
                StepView::Perform(plan[n])
            } else {
                StepView::Finished(Ok(FilesystemStoreOperationStatus::Applied))
            }
            &&& n > 0 ==> now.counter == if n == 1 {
                following(number)
            } else {
                replies.last().counter as int
            }
        }),
{
    lemma_write(job, execution, contents, replies);
}

/// A removal takes its stages one after the other.
#[verifier::spinoff_prover]
proof fn lemma_remove(job: Job, execution: ExecutionView, lazy: bool, replies: Seq<Reply>)
    requires
        unencumbered(execution),
        not_applied(job, execution.state),
        !overtaken(job, execution.state),
        job.mutation == (MutationView::Remove { lazy }),
        follows(job, execution, replies),
        unhindered(job, execution, replies),
    ensures
        ({
            let number = replies[0].counter;
            let present = replies[0].outcome == OutcomeView::Present(true);
            let plan = remove_plan(job, lazy, number, present);
            let n = replies.len() as int;
            let (now, step) = course(job, execution, replies);
            &&& n <= plan.len()
            &&& now.failure is None
            &&& if n < plan.len() {
                &&& now.stage == remove_stages(job, lazy, number, present)[n]
                &&& step == StepView::Perform(plan[n])
            } else {
                step == StepView::Finished(Ok(FilesystemStoreOperationStatus::Applied))
            }
            &&& now.stage == Stage::SyncingRemoval ==> now.state.pending_durability == Some(
                match job.platform {
                    Platform::Unix => PendingDurability::Directory { version: job.version },
                    Platform::Windows => PendingDurability::File {
                        version: job.version,
                        trash: Some(number),
                    },
                },
            )
            &&& n > 0 ==> now.counter == if n == 1 && plan.len() == 4 {
                following(number)
            } else {
                replies.last().counter as int
            }
        }),
    decreases replies.len(),
{
    if replies.len() > 0 {
        let before = replies.drop_last();
        lemma_shorter(job, execution, replies);
        lemma_remove(job, execution, lazy, before);
        if before.len() > 0 {
            assert(before[0] == replies[0]);
        } else {
            assert(replies[0] == replies.last());
        }
    }
}

/// A removal that nothing hinders goes like this: it is found out whether there is a file. If there
/// is none, the removal is applied. Otherwise the file is deleted and, unless the removal is lazy,
/// its directory is synced; on Windows a file that is not removed lazily is moved to a trash file
/// that bears the number of the next artifact, which is used up, and the trash file is synced and
/// deleted. Then the removal is applied.
pub proof fn law_removal_goes_by_its_plan(
    job: Job,
    execution: ExecutionView,
    lazy: bool,
    replies: Seq<Reply>,
)
    requires
        unencumbered(execution),
        not_applied(job, execution.state),
        !overtaken(job, execution.state),
        job.mutation == (MutationView::Remove { lazy }),
        follows(job, execution, replies),
        unhindered(job, execution, replies),
    ensures
        ({
            let number = replies[0].counter;
            let present = replies[0].outcome == OutcomeView::Present(true);
            let plan = remove_plan(job, lazy, number, present);
            let n = replies.len() as int;
            let (now, step) = course(job, execution, replies);
            &&& n <= plan.len()
            &&& step == if n < plan.len() {
                StepView::Perform(plan[n])
            } else {
                StepView::Finished(Ok(FilesystemStoreOperationStatus::Applied))
            }
            &&& n > 0 ==> now.counter == if n == 1 && plan.len() == 4 {
                following(number)
            } else {
                replies.last().counter as int
            }
        }),
{
    lemma_remove(job, execution, lazy, replies);
}

/// The refusal of an operation that a newer one has overtaken.
spec fn refusal() -> ErrorView {
    ErrorView {
        kind: ErrorKind::WouldBlock,
        message: Some("Filesystem store operation is blocked by a newer operation"@),
    }
}

/// Whether `error` is the failure of an action that matters.
pub open spec fn failed_with(
    job: Job,
    execution: ExecutionView,
    replies: Seq<Reply>,
    error: ErrorView,
) -> bool {
    exists|i: int|
        0 <= i < replies.len() && replies[i].outcome == OutcomeView::Failed(error)
            && #[trigger] fails_at(job, execution, replies, i)
}

/// One more reply does not undo a failure.
proof fn lemma_failed_with(
    job: Job,
    execution: ExecutionView,
    replies: Seq<Reply>,
    error: ErrorView,
)
    requires
        replies.len() > 0,
        failed_with(job, execution, replies.drop_last(), error),
    ensures
        failed_with(job, execution, replies, error),
{
    let before = replies.drop_last();
    let i = choose|i: int|
        0 <= i < before.len() && before[i].outcome == OutcomeView::Failed(error)
            && #[trigger] fails_at(job, execution, before, i);
    assert(before.take(i) =~= replies.take(i));
    assert(before[i] == replies[i]);
    assert(fails_at(job, execution, replies, i));
}

/// What holds of an execution in its course: where it stands, and that it asks for what it awaits.
spec fn in_course(
    job: Job,
    execution: ExecutionView,
    n: nat,
    now: ExecutionView,
    step: StepView,
) -> bool {
    &&& execution_valid(job, now)
    &&& step is Finished <==> now.stage == Stage::Idle
    &&& !(step is Wait)
    &&& step matches StepView::Perform(action) ==> awaits(job, now, action)
    &&& n + actions_left(now.stage) <= 8
    &&& match now.stage {
        Stage::Recovering => n == 0 && now.state == execution.state,
        Stage::RecoveringTrash => n <= 1 && now.state == execution.state,
        Stage::Idle => true,
        _ => !overtaken(job, execution.state) && !newer_change(job, execution.state),
    }
    &&& now.stage is CleaningUp && now.failure is None ==> now.state.latest_applied_version
        == Some(job.version)
}

/// Whether a newer operation has changed the file.
pub open spec fn newer_change(job: Job, state: FilesystemStoreOperationState) -> bool {
    ||| state.latest_applied_version is Some && state.latest_applied_version->0 > job.version
    ||| state.pending_durability is Some && match state.pending_durability->0 {
        PendingDurability::Directory { version } => version > job.version,
        PendingDurability::File { version, .. } => version > job.version,
    }
}

/// Whether the operation itself has changed the file, in an earlier execution.
pub open spec fn own_change(job: Job, state: FilesystemStoreOperationState) -> bool {
    ||| state.latest_applied_version == Some(job.version)
    ||| state.pending_durability is Some && match state.pending_durability->0 {
        PendingDurability::Directory { version } => version == job.version,
        PendingDurability::File { version, .. } => version == job.version,
    }
}

/// What an execution may end with.
spec fn ends_well(
    job: Job,
    execution: ExecutionView,
    replies: Seq<Reply>,
    now: ExecutionView,
    step: StepView,
) -> bool {
    &&& now.failure matches Some(error) ==> failed_with(job, execution, replies, error)
    &&& match step {
        StepView::Finished(Ok(FilesystemStoreOperationStatus::Applied)) => {
            &&& !newer_change(job, execution.state)
            &&& own_change(job, execution.state) || !overtaken(job, execution.state)
        },
        StepView::Finished(Ok(FilesystemStoreOperationStatus::Superseded)) => newer_change(
            job,
            execution.state,
        ),
        StepView::Finished(Err(error)) => failed_with(job, execution, replies, error) || {
            &&& overtaken(job, execution.state)
            &&& !newer_change(job, execution.state)
            &&& !own_change(job, execution.state)
            &&& error == refusal()
            &&& replies.len() <= 2
        },
        _ => true,
    }
}

/// The first step asks for what is then awaited.
proof fn lemma_begins(job: Job, execution: ExecutionView)
    requires
        execution_valid(job, execution),
        execution.stage == Stage::Idle,
    ensures
        in_course(job, execution, 0, begin(job, execution).0, begin(job, execution).1),
        ends_well(job, execution, seq![], begin(job, execution).0, begin(job, execution).1),
{
    lemma_begin_valid(job, execution);
}

/// Every step asks for what is then awaited.
#[verifier::spinoff_prover]
proof fn lemma_goes_on(
    job: Job,
    execution: ExecutionView,
    n: nat,
    before: ExecutionView,
    step: StepView,
    reply: Reply,
)
    requires
        in_course(job, execution, n, before, step),
        step is Perform,
    ensures
        ({
            let (now, next) = resume(
                job,
                ExecutionView { counter: reply.counter, ..before },
                reply.outcome,
            );
            in_course(job, execution, n + 1, now, next)
        }),
{
    lemma_resume_valid(job, ExecutionView { counter: reply.counter, ..before }, reply.outcome);
}

/// What a failure leads to.
#[verifier::spinoff_prover]
proof fn lemma_step_result(
    job: Job,
    execution: ExecutionView,
    n: nat,
    before: ExecutionView,
    step: StepView,
    reply: Reply,
)
    requires
        in_course(job, execution, n, before, step),
        step is Perform,
    ensures
        ({
            let (now, next) = resume(
                job,
                ExecutionView { counter: reply.counter, ..before },
                reply.outcome,
            );
            let fresh = reply.outcome is Failed && essential(job.dest, step->Perform_0);
            &&& now.failure is Some ==> now.failure == before.failure || (fresh && now.failure
                == Some(reply.outcome->Failed_0))
            &&& match next {
                StepView::Finished(Ok(FilesystemStoreOperationStatus::Applied)) => {
                    &&& !newer_change(job, execution.state)
                    &&& own_change(job, execution.state) || !overtaken(job, execution.state)
                },
                StepView::Finished(Ok(FilesystemStoreOperationStatus::Superseded)) => newer_change(
                    job,
                    execution.state,
                ),
                StepView::Finished(Err(error)) => {
                    ||| before.failure == Some(error)
                    ||| fresh && error == reply.outcome->Failed_0
                    ||| {
                        &&& overtaken(job, execution.state)
                        &&& !newer_change(job, execution.state)
                        &&& !own_change(job, execution.state)
                        &&& error == refusal()
                        &&& n <= 1
                    }
                },
                _ => true,
            }
        }),
{
}

/// An execution stays in its course.
proof fn lemma_course(job: Job, execution: ExecutionView, replies: Seq<Reply>)
    requires
        execution_valid(job, execution),
        execution.stage == Stage::Idle,
        follows(job, execution, replies),
    ensures
        in_course(
            job,
            execution,
            replies.len(),
            course(job, execution, replies).0,
            course(job, execution, replies).1,
        ),
        ends_well(
            job,
            execution,
            replies,
            course(job, execution, replies).0,
            course(job, execution, replies).1,
        ),
    decreases replies.len(),
{
    if replies.len() == 0 {
        assert(replies =~= seq![]);
        lemma_begins(job, execution);
    } else {
        let earlier = replies.drop_last();
        let reply = replies.last();
        lemma_shorter(job, execution, replies);
        lemma_course(job, execution, earlier);
        let (before, step) = course(job, execution, earlier);
        lemma_goes_on(job, execution, earlier.len(), before, step, reply);
        lemma_step_result(job, execution, earlier.len(), before, step, reply);
        if before.failure is Some {
            lemma_failed_with(job, execution, replies, before.failure->0);
        }
        if reply.outcome is Failed && essential(job.dest, step->Perform_0) {
            assert(fails_at(job, execution, replies, replies.len() - 1));
        }
    }
}

/// An execution that ends with an error ends with the failure of one of its own actions, one that
/// matters, or it was refused before it changed anything, because a newer operation was under way
/// when it began and neither of them had changed the file.
pub proof fn law_errors_are_those_of_the_actions(
    job: Job,
    execution: ExecutionView,
    replies: Seq<Reply>,
)
    requires
        execution_valid(job, execution),
        execution.stage == Stage::Idle,
        follows(job, execution, replies),
    ensures
        course(job, execution, replies).1 matches StepView::Finished(Err(error)) ==> failed_with(
            job,
            execution,
            replies,
            error,
        ) || {
            &&& overtaken(job, execution.state)
            &&& !newer_change(job, execution.state)
            &&& !own_change(job, execution.state)
            &&& error == (ErrorView {
                kind: ErrorKind::WouldBlock,
                message: Some("Filesystem store operation is blocked by a newer operation"@),
            })
            &&& replies.len() <= 2
        },
{
    lemma_course(job, execution, replies);
}

/// What an execution ends with none of whose actions fails that matters: the operation is superseded
/// if a newer one had changed the file when the execution began, and refused if a newer one was
/// under way and it had not changed the file itself before. In every other case it is applied, be
/// it a write or a removal, lazy or not.
pub proof fn law_unhindered_operation_is_applied(
    job: Job,
    execution: ExecutionView,
    replies: Seq<Reply>,
)
    requires
        execution_valid(job, execution),
        execution.stage == Stage::Idle,
        follows(job, execution, replies),
        unhindered(job, execution, replies),
        course(job, execution, replies).1 is Finished,
    ensures
        course(job, execution, replies).1 == StepView::Finished(
            if newer_change(job, execution.state) {
                Ok(FilesystemStoreOperationStatus::Superseded)
            } else if own_change(job, execution.state) || !overtaken(job, execution.state) {
                Ok(FilesystemStoreOperationStatus::Applied)
            } else {
                Err(
                    ErrorView {
                        kind: ErrorKind::WouldBlock,
                        message: Some(
                            "Filesystem store operation is blocked by a newer operation"@,
                        ),
                    },
                )
            },
        ),
{
    lemma_course(job, execution, replies);
    match course(job, execution, replies).1 {
        StepView::Finished(Ok(status)) => match status {
            FilesystemStoreOperationStatus::Applied => {},
            FilesystemStoreOperationStatus::Superseded => {},
        },
        StepView::Finished(Err(error)) => {
            if failed_with(job, execution, replies, error) {
                let i = choose|i: int|
                    0 <= i < replies.len() && replies[i].outcome == OutcomeView::Failed(error)
                        && #[trigger] fails_at(job, execution, replies, i);
                assert(fails_at(job, execution, replies, i));
            }
        },
        _ => {},
    }
}

/// Every execution ends after at most eight actions, and never has to wait once it has begun.
pub proof fn law_execution_ends_soon(job: Job, execution: ExecutionView, replies: Seq<Reply>)
    requires
        execution_valid(job, execution),
        execution.stage == Stage::Idle,
        follows(job, execution, replies),
    ensures
        replies.len() <= 8,
        replies.len() == 8 ==> course(job, execution, replies).1 is Finished,
        !(course(job, execution, replies).1 is Wait),
{
    lemma_course(job, execution, replies);
}

/// When an action fails that matters, the execution ends with that failure, after it has asked to
/// delete the temporary file if it has come to write one. It leaves a change pending exactly if it
/// was a sync that failed, and it is the change whose sync that was.
pub proof fn law_failure_is_reported(
    job: Job,
    execution: ExecutionView,
    replies: Seq<Reply>,
    i: int,
    error: ErrorView,
)
    requires
        is_key_file(job.dest),
        execution_valid(job, execution),
        execution.stage == Stage::Idle,
        follows(job, execution, replies),
        0 <= i < replies.len(),
        fails_at(job, execution, replies, i),
        replies[i].outcome == OutcomeView::Failed(error),
    ensures
        ({
            let step = course(job, execution, replies).1;
            let action = course(job, execution, replies.take(i)).1->Perform_0;
            &&& replies.len() <= i + 2
            &&& replies.len() == i + 1 ==> step == StepView::Finished(Err(error)) || (
            job.mutation is Write && exists|number: nat|
                step == StepView::Perform(
                    ActionView::RemoveFile {
                        path: #[trigger] artifact_path(job.dest, number, Artifact::Temporary),
                    },
                ))
            &&& replies.len() == i + 2 ==> step == StepView::Finished(Err(error))
            &&& match course(job, execution, replies).0.state.pending_durability {
                None => !(action is SyncDirectory) && !(action is SyncFile),
                Some(PendingDurability::Directory { .. }) => action
                    == (ActionView::SyncDirectory { path: job.dest.drop_last() }),
                Some(PendingDurability::File { trash: Some(number), .. }) => action
                    == (ActionView::SyncFile {
                    path: artifact_path(job.dest, number as nat, Artifact::Trash),
                }),
                Some(PendingDurability::File { trash: None, .. }) => action
                    == (ActionView::SyncFile { path: job.dest }),
            }
        }),
{
    lemma_failing(job, execution, replies, i, error);
    let (now, step) = course(job, execution, replies);
    if now.stage is CleaningUp {
        let number = now.stage->CleaningUp_number as nat;
        let path = artifact_path(job.dest, number, Artifact::Temporary);
        assert(step == StepView::Perform(ActionView::RemoveFile { path }));
    }
}

/// After a failure that matters an execution is over or about to clean up.
proof fn lemma_failing(
    job: Job,
    execution: ExecutionView,
    replies: Seq<Reply>,
    i: int,
    error: ErrorView,
)
    requires
        is_key_file(job.dest),
        execution_valid(job, execution),
        execution.stage == Stage::Idle,
        follows(job, execution, replies),
        0 <= i < replies.len(),
        fails_at(job, execution, replies, i),
        replies[i].outcome == OutcomeView::Failed(error),
    ensures
        ({
            let (now, step) = course(job, execution, replies);
            &&& replies.len() <= i + 2
            &&& leaves_pending(
                job,
                now.state.pending_durability,
                course(job, execution, replies.take(i)).1->Perform_0,
            )
            &&& step == StepView::Finished(Err(error)) || {
                &&& replies.len() == i + 1
                &&& job.mutation is Write
                &&& now.stage is CleaningUp
                &&& now.failure == Some(error)
                &&& step == StepView::Perform(
                    ActionView::RemoveFile {
                        path: job.temporary(now.stage->CleaningUp_number),
                    },
                )
            }
        }),
    decreases replies.len(),
{
    let earlier = replies.drop_last();
    lemma_shorter(job, execution, replies);
    lemma_course(job, execution, earlier);
    let (before, step) = course(job, execution, earlier);
    if replies.len() == i + 1 {
        match before.stage {
            Stage::CleaningUp { number } => {
                law_artifacts_are_told_from_keys(job.dest, number as nat, Artifact::Temporary);
            },
            Stage::RecoveringTrash | Stage::DiscardingTrash => {
                let number = before.state.pending_durability->0.trash()->0;
                law_artifacts_are_told_from_keys(job.dest, number as nat, Artifact::Trash);
            },
            _ => {},
        }
        lemma_failing_step(job, before, step->Perform_0, replies.last(), error);
    } else {
        assert(earlier.take(i) =~= replies.take(i));
        assert(earlier[i] == replies[i]);
        assert(fails_at(job, execution, earlier, i));
        lemma_failing(job, execution, earlier, i, error);
    }
}

/// Whether a change is pending exactly if `action` is its sync.
spec fn leaves_pending(job: Job, pending: Option<PendingDurability>, action: ActionView) -> bool {
    match pending {
        None => !(action is SyncDirectory) && !(action is SyncFile),
        Some(pending) => action == job.sync(pending),
    }
}

/// A failure that matters ends an execution or makes it clean up.
#[verifier::spinoff_prover]
proof fn lemma_failing_step(
    job: Job,
    before: ExecutionView,
    action: ActionView,
    reply: Reply,
    error: ErrorView,
)
    requires
        execution_valid(job, before),
        awaits(job, before, action),
        essential(job.dest, action),
        action is RemoveFile ==> before.stage == Stage::RemovingFile,
        reply.outcome == OutcomeView::Failed(error),
    ensures
        ({
            let (now, step) = resume(
                job,
                ExecutionView { counter: reply.counter, ..before },
                reply.outcome,
            );
            &&& leaves_pending(job, now.state.pending_durability, action)
            &&& step == StepView::Finished(Err(error)) || {
                &&& job.mutation is Write
                &&& now.stage is CleaningUp
                &&& now.failure == Some(error)
                &&& step == StepView::Perform(
                    ActionView::RemoveFile {
                        path: job.temporary(now.stage->CleaningUp_number),
                    },
                )
            }
        }),
{
}

/// An execution can begin whenever what is remembered of the file makes sense and a pending change
/// is pending in the way of the platform.
pub proof fn law_execution_may_begin(job: Job, execution: ExecutionView)
    requires
        execution.stage == Stage::Idle,
        execution.failure is None,
    ensures
        execution_valid(job, execution) <==> {
            &&& job.dest.len() > 0
            &&& execution.state.valid()
            &&& match execution.state.pending_durability {
                None => true,
                Some(PendingDurability::Directory { .. }) => job.platform == Platform::Unix,
                Some(PendingDurability::File { .. }) => job.platform == Platform::Windows,
            }
        },
{
}

/// What a step leaves when an execution ends.
#[verifier::spinoff_prover]
proof fn lemma_end_step(
    job: Job,
    execution: ExecutionView,
    n: nat,
    before: ExecutionView,
    step: StepView,
    reply: Reply,
)
    requires
        in_course(job, execution, n, before, step),
        step is Perform,
    ensures
        ({
            let (now, next) = resume(
                job,
                ExecutionView { counter: reply.counter, ..before },
                reply.outcome,
            );
            remembers(job, execution, n + 1, now.state, next)
        }),
{
}

/// Whether `state` is what should be remembered at the end of an execution.
spec fn remembers(
    job: Job,
    execution: ExecutionView,
    n: nat,
    state: FilesystemStoreOperationState,
    step: StepView,
) -> bool {
    let latest = state.latest_operation;
    match step {
        StepView::Finished(Ok(FilesystemStoreOperationStatus::Applied)) => {
            &&& state.pending_durability is None
            &&& state.latest_applied_version == Some(job.version)
        },
        StepView::Finished(Ok(FilesystemStoreOperationStatus::Superseded)) => {
            &&& state.pending_durability is None
            &&& state.latest_applied_version is Some
            &&& state.latest_applied_version->0 > job.version
        },
        StepView::Finished(Err(_)) => {
            ||| execution.state.pending_durability is Some && state == execution.state && n == 1
            ||| {
                &&& not_applied(job, state)
                &&& state.pending_durability is Some ==> (match state.pending_durability->0 {
                    PendingDurability::Directory { version } => version == job.version,
                    PendingDurability::File { version, .. } => version == job.version,
                })
                &&& latest is Some
                &&& latest->0.version >= job.version
                &&& latest->0.version == job.version ==> latest->0.status
                    == FilesystemStoreOperationAttemptStatus::Failed
            }
        },
        _ => true,
    }
}

/// What is remembered when an execution ends. Of an applied operation, that its version is the
/// applied one, with nothing pending. Of a superseded one, that a newer version is applied. Of one
/// that failed or was refused, that its version is not applied: if it is the latest it counts as
/// failed, and what is pending is its own change. Only a sync of an earlier change that failed
/// leaves everything as it was.
pub proof fn law_end_is_remembered(job: Job, execution: ExecutionView, replies: Seq<Reply>)
    requires
        execution_valid(job, execution),
        execution.stage == Stage::Idle,
        follows(job, execution, replies),
    ensures
        ({
            let (now, step) = course(job, execution, replies);
            let state = now.state;
            let latest = state.latest_operation;
            match step {
                StepView::Finished(Ok(FilesystemStoreOperationStatus::Applied)) => {
                    &&& state.pending_durability is None
                    &&& state.latest_applied_version == Some(job.version)
                },
                StepView::Finished(Ok(FilesystemStoreOperationStatus::Superseded)) => {
                    &&& state.pending_durability is None
                    &&& state.latest_applied_version is Some
                    &&& state.latest_applied_version->0 > job.version
                },
                StepView::Finished(Err(_)) => {
                    ||| execution.state.pending_durability is Some && state == execution.state
                        && replies.len() == 1
                    ||| {
                        &&& not_applied(job, state)
                        &&& state.pending_durability is Some ==> (
                        match state.pending_durability->0 {
                            PendingDurability::Directory { version } => version == job.version,
                            PendingDurability::File { version, .. } => version == job.version,
                        })
                        &&& latest is Some
                        &&& latest->0.version >= job.version
                        &&& latest->0.version == job.version ==> latest->0.status
                            == FilesystemStoreOperationAttemptStatus::Failed
                    }
                },
                _ => true,
            }
        }),
{
    if replies.len() > 0 {
        let earlier = replies.drop_last();
        lemma_shorter(job, execution, replies);
        lemma_course(job, execution, earlier);
        let (before, step) = course(job, execution, earlier);
        lemma_end_step(job, execution, earlier.len(), before, step, replies.last());
    }
}

} // verus!
