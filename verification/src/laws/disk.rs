//! Laws on what the files hold.
//!
//! A disk is a map from paths to contents. The laws follow one key's file through the executions of
//! the operations on it. Files of other keys may change meanwhile in any way.

use crate::action::{ActionView, OutcomeView, StepView};
use crate::execution::{ExecutionView, Job, MutationView, Stage};
use crate::execution::{begin, execution_valid, resume};
use crate::execution::{lemma_begin_valid, lemma_resume_valid};
use crate::laws::execution::settled;
use crate::laws::names::is_key_file;
use crate::laws::names::{
    law_artifacts_are_distinct, law_artifacts_are_told_from_keys, lemma_key_file,
};
use crate::path::{Artifact, PathView};
use crate::path::artifact_path;
use crate::state::{FilesystemStoreOperationState, FilesystemStoreOperationStatus, Platform};
use vstd::prelude::*;

verus! {

/// What the files on a disk hold.
pub type Disk = Map<PathView, Seq<u8>>;

/// Whether `path` is a key's file or one of its artifacts.
pub open spec fn owned(dest: PathView, path: PathView) -> bool {
    path == dest || exists|number: nat, artifact: Artifact|
        path == #[trigger] artifact_path(dest, number, artifact)
}

/// Whether two disks hold the same at `path`.
pub open spec fn agree_at(a: Disk, b: Disk, path: PathView) -> bool {
    &&& a.contains_key(path) == b.contains_key(path)
    &&& a.contains_key(path) ==> a[path] == b[path]
}

/// Whether two disks hold the same for a key's file and its artifacts.
pub open spec fn agree(dest: PathView, a: Disk, b: Disk) -> bool {
    forall|path: PathView| owned(dest, path) ==> #[trigger] agree_at(a, b, path)
}

/// Whether an action may change what is at `path`.
pub open spec fn touched(action: ActionView, path: PathView) -> bool {
    match action {
        ActionView::WriteFile { path: written, .. } => path == written,
        ActionView::Rename { from, to } => path == from || path == to,
        ActionView::ReplaceFile { from, to } => path == from || path == to,
        ActionView::MoveFile { from, to } => path == from || path == to,
        ActionView::RemoveFile { path: removed } => path == removed,
        _ => false,
    }
}

/// What moving a file does.
pub open spec fn moved(
    dest: PathView,
    from: PathView,
    to: PathView,
    before: Disk,
    after: Disk,
) -> bool {
    before.contains_key(from) && agree(dest, after, before.remove(from).insert(to, before[from]))
}

/// Whether an action with the given outcome can take one disk to another, as far as the file at
/// `dest` and its artifacts are concerned.
///
/// A file is replaced, moved or deleted as a whole or not at all. A file that could not be written
/// may hold anything.
pub open spec fn performed(
    dest: PathView,
    action: ActionView,
    outcome: OutcomeView,
    before: Disk,
    after: Disk,
) -> bool {
    match action {
        ActionView::WriteFile { path: written, contents } => if outcome is Failed {
            forall|path: PathView|
                owned(dest, path) && path != written ==> #[trigger] agree_at(after, before, path)
        } else {
            agree(dest, after, before.insert(written, contents))
        },
        ActionView::Rename { from, to } => if outcome is Failed {
            agree(dest, after, before)
        } else {
            moved(dest, from, to, before, after)
        },
        ActionView::ReplaceFile { from, to } => if outcome is Failed {
            agree(dest, after, before)
        } else {
            moved(dest, from, to, before, after)
        },
        ActionView::MoveFile { from, to } => if outcome is Failed {
            agree(dest, after, before)
        } else {
            moved(dest, from, to, before, after)
        },
        ActionView::RemoveFile { path } => if outcome is Failed {
            agree(dest, after, before)
        } else {
            agree(dest, after, before.remove(path))
        },
        ActionView::IsFile { path } => agree(dest, after, before) && outcome
            == OutcomeView::Present(before.contains_key(path)),
        _ => agree(dest, after, before),
    }
}

/// What the file at `dest` holds, if it exists.
pub open spec fn value(disk: Disk, dest: PathView) -> Option<Seq<u8>> {
    if disk.contains_key(dest) {
        Some(disk[dest])
    } else {
        None
    }
}

/// What a file holds once a change was made.
pub open spec fn result_of(mutation: MutationView) -> Option<Seq<u8>> {
    match mutation {
        MutationView::Write(contents) => Some(contents),
        MutationView::Remove { .. } => None,
    }
}

/// What a file should hold: what the operation that changed it last asked for. `requests` tells
/// what each version asks for, and `initial` what the file held before all of them.
pub open spec fn expected(
    state: FilesystemStoreOperationState,
    requests: Map<u64, MutationView>,
    initial: Option<Seq<u8>>,
) -> Option<Seq<u8>> {
    match state.last_change() {
        Some(version) => result_of(requests[version]),
        None => initial,
    }
}

/// Whether an execution waits for `action`.
pub open spec fn awaits(job: Job, execution: ExecutionView, action: ActionView) -> bool {
    let pending = execution.state.pending_durability;
    match execution.stage {
        Stage::Idle => false,
        Stage::Recovering | Stage::SyncingWrite { .. } | Stage::SyncingRemoval => action
            == job.sync(pending->0),
        Stage::RecoveringTrash | Stage::DiscardingTrash => action == (ActionView::RemoveFile {
            path: job.trash(pending->0.trash()->0),
        }),
        Stage::CreatingParent => action == (ActionView::CreateDirAll {
            path: job.dest.drop_last(),
        }),
        Stage::WritingTemporary { number } => action == (ActionView::WriteFile {
            path: job.temporary(number),
            contents: job.mutation->0,
        }),
        Stage::CheckingDestination { .. } => action is Exists,
        Stage::Replacing { number } => {
            let from = job.temporary(number);
            let to = job.dest;
            ||| action == (ActionView::Rename { from, to })
            ||| action == (ActionView::ReplaceFile { from, to })
            ||| action == (ActionView::MoveFile { from, to })
        },
        Stage::CleaningUp { number } => action == (ActionView::RemoveFile {
            path: job.temporary(number),
        }),
        Stage::CheckingFile => action == (ActionView::IsFile { path: job.dest }),
        Stage::RemovingFile => action == (ActionView::RemoveFile { path: job.dest }),
        Stage::MovingToTrash { number } => action == (ActionView::MoveFile {
            from: job.dest,
            to: job.trash(number),
        }),
    }
}

/// What holds of the disk during an execution: the file holds what the operation that changed it
/// last asked for, and the temporary file holds the value that is about to replace it.
pub open spec fn disk_valid(
    job: Job,
    execution: ExecutionView,
    requests: Map<u64, MutationView>,
    initial: Option<Seq<u8>>,
    disk: Disk,
) -> bool {
    &&& is_key_file(job.dest)
    &&& requests[job.version] == job.mutation
    &&& value(disk, job.dest) == expected(execution.state, requests, initial)
    &&& match execution.stage {
        Stage::CheckingDestination { number } | Stage::Replacing { number } => value(
            disk,
            job.temporary(number),
        ) == result_of(job.mutation),
        _ => true,
    }
}

/// The first step asks for the action that the execution then waits for.
pub proof fn lemma_begin_awaits(job: Job, execution: ExecutionView)
    requires
        execution_valid(job, execution),
        execution.stage == Stage::Idle,
    ensures
        begin(job, execution).1 matches StepView::Perform(action) ==> awaits(
            job,
            begin(job, execution).0,
            action,
        ),
        begin(job, execution).0.state.last_change() == execution.state.last_change(),
{
}

/// What an action that was performed leaves at a path.
pub open spec fn left_at(action: ActionView, before: Disk, path: PathView) -> Option<Seq<u8>> {
    match action {
        ActionView::WriteFile { path: written, contents } if path == written => Some(contents),
        ActionView::Rename { from, to } if path == to => value(before, from),
        ActionView::ReplaceFile { from, to } if path == to => value(before, from),
        ActionView::MoveFile { from, to } if path == to => value(before, from),
        _ => if touched(action, path) {
            None
        } else {
            value(before, path)
        },
    }
}

/// An action changes only the paths that it touches, and these only as it is meant to.
pub proof fn lemma_performed(
    dest: PathView,
    action: ActionView,
    outcome: OutcomeView,
    before: Disk,
    after: Disk,
    path: PathView,
)
    requires
        performed(dest, action, outcome, before, after),
        owned(dest, path),
    ensures
        !touched(action, path) ==> value(after, path) == value(before, path),
        !(outcome is Failed) ==> value(after, path) == left_at(action, before, path),
        outcome is Failed && !(action is WriteFile) ==> value(after, path) == value(before, path),
{
    match action {
        ActionView::WriteFile { path: written, contents } => if outcome is Failed {
            assert(path != written ==> agree_at(after, before, path));
        } else {
            assert(agree_at(after, before.insert(written, contents), path));
        },
        ActionView::Rename { from, to } | ActionView::ReplaceFile { from, to }
        | ActionView::MoveFile { from, to } => if outcome is Failed {
            assert(agree_at(after, before, path));
        } else {
            assert(agree_at(after, before.remove(from).insert(to, before[from]), path));
        },
        ActionView::RemoveFile { path: removed } => if outcome is Failed {
            assert(agree_at(after, before, path));
        } else {
            assert(agree_at(after, before.remove(removed), path));
        },
        _ => {
            assert(agree_at(after, before, path));
        },
    }
}

/// Performing the awaited action and taking the step after it keeps the disk as it should be.
pub proof fn lemma_resume_disk(
    job: Job,
    execution: ExecutionView,
    requests: Map<u64, MutationView>,
    initial: Option<Seq<u8>>,
    action: ActionView,
    outcome: OutcomeView,
    before: Disk,
    after: Disk,
)
    requires
        execution_valid(job, execution),
        disk_valid(job, execution, requests, initial, before),
        awaits(job, execution, action),
        performed(job.dest, action, outcome, before, after),
    ensures
        disk_valid(job, resume(job, execution, outcome).0, requests, initial, after),
        resume(job, execution, outcome).1 matches StepView::Perform(next) ==> awaits(
            job,
            resume(job, execution, outcome).0,
            next,
        ),
{
    let dest = job.dest;
    lemma_performed(dest, action, outcome, before, after, dest);
    match execution.stage {
        Stage::WritingTemporary { number } | Stage::CheckingDestination { number }
        | Stage::Replacing { number } | Stage::SyncingWrite { number } | Stage::CleaningUp {
            number,
        } => {
            law_artifacts_are_told_from_keys(dest, number as nat, Artifact::Temporary);
            lemma_performed(dest, action, outcome, before, after, job.temporary(number));
        },
        Stage::MovingToTrash { number } => {
            law_artifacts_are_told_from_keys(dest, number as nat, Artifact::Trash);
        },
        Stage::RecoveringTrash | Stage::DiscardingTrash => {
            let number = execution.state.pending_durability->0.trash()->0;
            law_artifacts_are_told_from_keys(dest, number as nat, Artifact::Trash);
        },
        _ => {},
    }
}

/// What happens between two steps of an execution: the action that was asked for is performed, and
/// executions on other files may use up numbers of artifacts.
pub struct Move {
    pub outcome: OutcomeView,
    /// The disk after the action.
    pub disk: Disk,
    /// The number of the next artifact by then.
    pub counter: usize,
}

/// An execution in the midst of things.
pub struct Situation {
    pub execution: ExecutionView,
    pub step: StepView,
    pub disk: Disk,
}

impl Situation {
    /// The situation after the first step.
    pub open spec fn first(job: Job, execution: ExecutionView, disk: Disk) -> Situation {
        Situation { execution: begin(job, execution).0, step: begin(job, execution).1, disk }
    }

    /// The situation after one more step.
    pub open spec fn next(self, job: Job, happening: Move) -> Situation {
        let execution = ExecutionView { counter: happening.counter, ..self.execution };
        let (execution, step) = resume(job, execution, happening.outcome);
        Situation { execution, step, disk: happening.disk }
    }

    /// Whether one move can happen in this situation.
    pub open spec fn allows(self, job: Job, happening: Move) -> bool {
        self.step matches StepView::Perform(action) && performed(
            job.dest,
            action,
            happening.outcome,
            self.disk,
            happening.disk,
        )
    }

    /// The situation after some moves.
    pub open spec fn after(self, job: Job, moves: Seq<Move>) -> Situation
        decreases moves.len(),
    {
        if moves.len() == 0 {
            self
        } else {
            self.after(job, moves.drop_last()).next(job, moves.last())
        }
    }

    /// Whether the moves can happen one after the other.
    pub open spec fn allows_all(self, job: Job, moves: Seq<Move>) -> bool
        decreases moves.len(),
    {
        moves.len() == 0 || {
            &&& self.allows_all(job, moves.drop_last())
            &&& self.after(job, moves.drop_last()).allows(job, moves.last())
        }
    }
}

/// Whether `newer` is the same version as `older` or a newer one.
pub open spec fn not_older(newer: Option<u64>, older: Option<u64>) -> bool {
    older is Some ==> newer is Some && newer->0 >= older->0
}

/// What holds in every situation of an execution that began with `state`.
pub open spec fn on_track(
    job: Job,
    state: FilesystemStoreOperationState,
    requests: Map<u64, MutationView>,
    initial: Option<Seq<u8>>,
    situation: Situation,
) -> bool {
    let now = situation.execution.state;
    &&& execution_valid(job, situation.execution)
    &&& disk_valid(job, situation.execution, requests, initial, situation.disk)
    &&& not_older(now.latest_applied_version, state.latest_applied_version)
    &&& now.last_change() == state.last_change() || now.last_change() == Some(job.version)
    &&& not_older(now.last_change(), state.last_change())
    &&& situation.step is Finished <==> situation.execution.stage == Stage::Idle
    &&& settled(state) ==> settled(now) || {
        &&& situation.execution.stage != Stage::Idle
        &&& situation.execution.stage != Stage::Recovering
        &&& situation.execution.stage != Stage::RecoveringTrash
        &&& now.latest_operation->0.version == job.version
    }
    &&& match situation.step {
        StepView::Wait => false,
        StepView::Perform(action) => awaits(job, situation.execution, action),
        StepView::Finished(Ok(FilesystemStoreOperationStatus::Applied)) => {
            &&& now.pending_durability is None
            &&& now.latest_applied_version == Some(job.version)
        },
        StepView::Finished(Ok(FilesystemStoreOperationStatus::Superseded)) => {
            &&& now.pending_durability is None
            &&& now.latest_applied_version is Some
            &&& now.latest_applied_version->0 > job.version
        },
        StepView::Finished(Err(_)) => now.pending_durability is None ==> {
            &&& now.last_change() == state.last_change()
            &&& now.latest_applied_version matches Some(applied) ==> applied < job.version
        },
    }
}

/// The first step of an execution is on track.
proof fn lemma_first_on_track(
    job: Job,
    execution: ExecutionView,
    requests: Map<u64, MutationView>,
    initial: Option<Seq<u8>>,
    disk: Disk,
)
    requires
        execution_valid(job, execution),
        execution.stage == Stage::Idle,
        disk_valid(job, execution, requests, initial, disk),
    ensures
        on_track(
            job,
            execution.state,
            requests,
            initial,
            Situation::first(job, execution, disk),
        ),
{
    lemma_begin_valid(job, execution);
    lemma_begin_awaits(job, execution);
}

/// An execution that is on track is so after one more move.
#[verifier::spinoff_prover]
proof fn lemma_on_track_after(
    job: Job,
    state: FilesystemStoreOperationState,
    requests: Map<u64, MutationView>,
    initial: Option<Seq<u8>>,
    before: Situation,
    happening: Move,
)
    requires
        on_track(job, state, requests, initial, before),
        before.allows(job, happening),
    ensures
        on_track(job, state, requests, initial, before.next(job, happening)),
{
    let execution = ExecutionView { counter: happening.counter, ..before.execution };
    let action = before.step->Perform_0;
    assert(awaits(job, execution, action));
    lemma_resume_valid(job, execution, happening.outcome);
    lemma_resume_disk(
        job,
        execution,
        requests,
        initial,
        action,
        happening.outcome,
        before.disk,
        happening.disk,
    );
}

/// An execution that is on track stays so.
proof fn lemma_on_track(
    job: Job,
    state: FilesystemStoreOperationState,
    requests: Map<u64, MutationView>,
    initial: Option<Seq<u8>>,
    situation: Situation,
    moves: Seq<Move>,
)
    requires
        on_track(job, state, requests, initial, situation),
        situation.allows_all(job, moves),
    ensures
        on_track(job, state, requests, initial, situation.after(job, moves)),
    decreases moves.len(),
{
    if moves.len() > 0 {
        lemma_on_track(job, state, requests, initial, situation, moves.drop_last());
        lemma_on_track_after(
            job,
            state,
            requests,
            initial,
            situation.after(job, moves.drop_last()),
            moves.last(),
        );
    }
}

/// Whether an operation that has made its change before finds it in the file.
pub open spec fn change_in_place(
    job: Job,
    state: FilesystemStoreOperationState,
    disk: Disk,
) -> bool {
    state.last_change() == Some(job.version) ==> value(disk, job.dest) == result_of(job.mutation)
}

/// An execution of an operation on a key's file, from its first step on.
pub open spec fn runs(job: Job, execution: ExecutionView, disk: Disk, moves: Seq<Move>) -> bool {
    &&& is_key_file(job.dest)
    &&& execution_valid(job, execution)
    &&& execution.stage == Stage::Idle
    &&& change_in_place(job, execution.state, disk)
    &&& Situation::first(job, execution, disk).allows_all(job, moves)
}

/// The situation that an execution has come to.
pub open spec fn reached(
    job: Job,
    execution: ExecutionView,
    disk: Disk,
    moves: Seq<Move>,
) -> Situation {
    Situation::first(job, execution, disk).after(job, moves)
}

/// What each operation asked for, as far as the file and one execution show it.
pub open spec fn known_requests(
    job: Job,
    state: FilesystemStoreOperationState,
    disk: Disk,
) -> Map<u64, MutationView> {
    let previous = match value(disk, job.dest) {
        Some(contents) => MutationView::Write(contents),
        None => MutationView::Remove { lazy: false },
    };
    match state.last_change() {
        Some(version) => Map::empty().insert(version, previous).insert(job.version, job.mutation),
        None => Map::empty().insert(job.version, job.mutation),
    }
}

/// An execution is on track wherever it has come to.
pub proof fn lemma_reached(job: Job, execution: ExecutionView, disk: Disk, moves: Seq<Move>)
    requires
        runs(job, execution, disk, moves),
    ensures
        on_track(
            job,
            execution.state,
            known_requests(job, execution.state, disk),
            value(disk, job.dest),
            reached(job, execution, disk, moves),
        ),
{
    let requests = known_requests(job, execution.state, disk);
    let initial = value(disk, job.dest);
    lemma_first_on_track(job, execution, requests, initial, disk);
    lemma_on_track(
        job,
        execution.state,
        requests,
        initial,
        Situation::first(job, execution, disk),
        moves,
    );
}

/// At every moment of an execution the file holds either what it held before or what the operation
/// asks for, and the store knows which of the two. No failure and no interruption leaves anything
/// else in it.
pub proof fn law_file_holds_the_old_or_the_new_value(
    job: Job,
    execution: ExecutionView,
    disk: Disk,
    moves: Seq<Move>,
)
    requires
        runs(job, execution, disk, moves),
    ensures
        ({
            let before = execution.state.last_change();
            let now = reached(job, execution, disk, moves).execution.state.last_change();
            let held = value(reached(job, execution, disk, moves).disk, job.dest);
            if now == before {
                held == value(disk, job.dest)
            } else {
                now == Some(job.version) && held == result_of(job.mutation)
            }
        }),
{
    lemma_reached(job, execution, disk, moves);
}

/// A read after a write gives what was written, and a read after a removal finds nothing: once an
/// operation is reported as applied, the file holds what the operation asked for, and nothing is
/// left to be made durable.
pub proof fn law_applied_operation_is_in_the_file(
    job: Job,
    execution: ExecutionView,
    disk: Disk,
    moves: Seq<Move>,
)
    requires
        runs(job, execution, disk, moves),
        reached(job, execution, disk, moves).step == StepView::Finished(
            Ok(FilesystemStoreOperationStatus::Applied),
        ),
    ensures
        value(reached(job, execution, disk, moves).disk, job.dest) == result_of(job.mutation),
        reached(job, execution, disk, moves).execution.state.latest_applied_version == Some(
            job.version,
        ),
        reached(job, execution, disk, moves).execution.state.pending_durability is None,
{
    lemma_reached(job, execution, disk, moves);
}

/// An operation that is reported as superseded has left the file as it was, and a newer one is
/// applied.
pub proof fn law_superseded_operation_changes_nothing(
    job: Job,
    execution: ExecutionView,
    disk: Disk,
    moves: Seq<Move>,
)
    requires
        runs(job, execution, disk, moves),
        reached(job, execution, disk, moves).step == StepView::Finished(
            Ok(FilesystemStoreOperationStatus::Superseded),
        ),
    ensures
        value(reached(job, execution, disk, moves).disk, job.dest) == value(disk, job.dest),
        reached(job, execution, disk, moves).execution.state.latest_applied_version is Some,
        reached(job, execution, disk, moves).execution.state.latest_applied_version->0
            > job.version,
{
    lemma_reached(job, execution, disk, moves);
}

/// An operation that failed has left the file as it was, unless it made its change and could not
/// make it durable: the store then remembers that the change is still pending.
pub proof fn law_failed_operation_changes_nothing_or_is_pending(
    job: Job,
    execution: ExecutionView,
    disk: Disk,
    moves: Seq<Move>,
)
    requires
        runs(job, execution, disk, moves),
        reached(job, execution, disk, moves).step matches StepView::Finished(Err(_)),
    ensures
        ({
            let now = reached(job, execution, disk, moves);
            ||| value(now.disk, job.dest) == value(disk, job.dest)
            ||| {
                &&& value(now.disk, job.dest) == result_of(job.mutation)
                &&& now.execution.state.pending_durability is Some
                &&& now.execution.state.pending_durability->0.spec_version() == job.version
            }
        }),
{
    lemma_reached(job, execution, disk, moves);
}

/// An operation that failed without leaving its change pending can be executed again under the same
/// version: it starts over.
pub proof fn law_failed_operation_can_be_executed_again(
    job: Job,
    execution: ExecutionView,
    disk: Disk,
    moves: Seq<Move>,
)
    requires
        runs(job, execution, disk, moves),
        settled(execution.state),
        reached(job, execution, disk, moves).step matches StepView::Finished(Err(_)),
        reached(job, execution, disk, moves).execution.state.pending_durability is None,
    ensures
        begin(job, reached(job, execution, disk, moves).execution).1 is Perform,
{
    lemma_reached(job, execution, disk, moves);
}

/// An execution that has ended leaves no operation under way, so that only an execution that was
/// abandoned midway can block an older operation.
pub proof fn law_ended_executions_block_no_operation(
    job: Job,
    execution: ExecutionView,
    disk: Disk,
    moves: Seq<Move>,
)
    requires
        runs(job, execution, disk, moves),
        settled(execution.state),
        reached(job, execution, disk, moves).step is Finished,
    ensures
        settled(reached(job, execution, disk, moves).execution.state),
{
    lemma_reached(job, execution, disk, moves);
}

/// The newest operation on a file is never superseded: where no newer one changed the file, an
/// execution that ends well has applied the operation.
pub proof fn law_newest_operation_is_never_superseded(
    job: Job,
    execution: ExecutionView,
    disk: Disk,
    moves: Seq<Move>,
)
    requires
        runs(job, execution, disk, moves),
        not_older(Some(job.version), execution.state.last_change()),
        reached(job, execution, disk, moves).step matches StepView::Finished(Ok(_)),
    ensures
        reached(job, execution, disk, moves).step == StepView::Finished(
            Ok(FilesystemStoreOperationStatus::Applied),
        ),
{
    lemma_reached(job, execution, disk, moves);
}

/// What is applied and what was changed last never goes back to an older version.
pub proof fn law_versions_never_go_back(
    job: Job,
    execution: ExecutionView,
    disk: Disk,
    moves: Seq<Move>,
)
    requires
        runs(job, execution, disk, moves),
    ensures
        ({
            let before = execution.state;
            let now = reached(job, execution, disk, moves).execution.state;
            &&& not_older(now.latest_applied_version, before.latest_applied_version)
            &&& not_older(now.last_change(), before.last_change())
        }),
{
    lemma_reached(job, execution, disk, moves);
}

/// Every action that an execution asks for changes nothing but the operation's own file and the
/// artifacts of that file.
pub proof fn law_actions_keep_to_their_file(
    job: Job,
    execution: ExecutionView,
    disk: Disk,
    moves: Seq<Move>,
    action: ActionView,
    path: PathView,
)
    requires
        runs(job, execution, disk, moves),
        reached(job, execution, disk, moves).step == StepView::Perform(action),
        touched(action, path),
    ensures
        owned(job.dest, path),
{
    lemma_reached(job, execution, disk, moves);
    lemma_awaited_is_owned(job, reached(job, execution, disk, moves).execution, action, path);
}

/// An awaited action changes nothing but the operation's own file and its artifacts.
pub proof fn lemma_awaited_is_owned(
    job: Job,
    execution: ExecutionView,
    action: ActionView,
    path: PathView,
)
    requires
        awaits(job, execution, action),
        touched(action, path),
    ensures
        owned(job.dest, path),
{
    match execution.stage {
        Stage::WritingTemporary { number } | Stage::Replacing { number } | Stage::CleaningUp {
            number,
        } => {
            assert(owned(job.dest, job.temporary(number)));
        },
        Stage::MovingToTrash { number } => {
            assert(owned(job.dest, job.trash(number)));
        },
        Stage::RecoveringTrash | Stage::DiscardingTrash => {
            let number = execution.state.pending_durability->0.trash()->0;
            assert(owned(job.dest, job.trash(number)));
        },
        _ => {},
    }
}

/// The only directory that an execution asks to create is the one that holds the operation's file:
/// that of the key's namespaces, at most two names deep.
pub proof fn law_only_directories_of_namespaces_are_made(
    job: Job,
    execution: ExecutionView,
    disk: Disk,
    moves: Seq<Move>,
    path: PathView,
)
    requires
        runs(job, execution, disk, moves),
        reached(job, execution, disk, moves).step == StepView::Perform(
            ActionView::CreateDirAll { path },
        ),
    ensures
        path == job.dest.drop_last(),
        path.len() <= 2,
{
    lemma_reached(job, execution, disk, moves);
    lemma_key_file(job.dest);
}

/// The files of two keys share no artifact, and neither is an artifact of the other, so that
/// operations on different keys do not touch the same paths.
pub proof fn law_files_of_different_keys_are_apart(
    dest: PathView,
    other_dest: PathView,
    path: PathView,
)
    requires
        is_key_file(dest),
        is_key_file(other_dest),
        dest != other_dest,
        owned(dest, path),
    ensures
        !owned(other_dest, path),
{
    if owned(other_dest, path) {
        if path == dest {
            let (number, artifact) = choose|number: nat, artifact: Artifact|
                path == #[trigger] artifact_path(other_dest, number, artifact);
            law_artifacts_are_told_from_keys(other_dest, number, artifact);
        } else {
            let (number, artifact) = choose|number: nat, artifact: Artifact|
                path == #[trigger] artifact_path(dest, number, artifact);
            law_artifacts_are_told_from_keys(dest, number, artifact);
            let (other_number, other_artifact) = choose|number: nat, artifact: Artifact|
                path == #[trigger] artifact_path(other_dest, number, artifact);
            law_artifacts_are_distinct(
                dest,
                number,
                artifact,
                other_dest,
                other_number,
                other_artifact,
            );
        }
    }
}

/// One execution of an operation on a file, from its beginning to its end.
pub struct Round {
    pub job: Job,
    /// The number of the next artifact when it begins.
    pub counter: usize,
    /// The disk when it begins.
    pub disk: Disk,
    pub moves: Seq<Move>,
}

/// The executions of the operations on one file, one after the other.
pub struct History {
    pub platform: Platform,
    pub dest: PathView,
    /// What was remembered of the file before the first execution.
    pub state: FilesystemStoreOperationState,
    /// The disk before the first execution.
    pub disk: Disk,
    /// What the operation with each version asks for.
    pub requests: Map<u64, MutationView>,
    pub rounds: Seq<Round>,
}

impl Round {
    /// What the execution begins with.
    pub open spec fn execution(self, state: FilesystemStoreOperationState) -> ExecutionView {
        ExecutionView { counter: self.counter, state, stage: Stage::Idle, failure: None }
    }

    /// How the execution ends.
    pub open spec fn end(self, state: FilesystemStoreOperationState) -> Situation {
        reached(self.job, self.execution(state), self.disk, self.moves)
    }
}

impl History {
    /// The history up to the execution with index `i`.
    pub open spec fn up_to(self, i: int) -> History {
        History { rounds: self.rounds.take(i), ..self }
    }

    /// What is remembered of the file in the end.
    pub open spec fn end_state(self) -> FilesystemStoreOperationState
        decreases self.rounds.len(),
    {
        if self.rounds.len() == 0 {
            self.state
        } else {
            self.rounds.last().end(self.up_to(self.rounds.len() - 1).end_state()).execution.state
        }
    }

    /// The disk in the end.
    pub open spec fn end_disk(self) -> Disk {
        if self.rounds.len() == 0 {
            self.disk
        } else {
            self.rounds.last().end(self.up_to(self.rounds.len() - 1).end_state()).disk
        }
    }

    /// Whether the execution with index `i` ended without an error.
    pub open spec fn succeeded(self, i: int) -> bool {
        self.rounds[i].end(self.up_to(i).end_state()).step matches StepView::Finished(Ok(_))
    }

    /// Whether the executions can follow one another in this way. Between two of them the file is
    /// left alone.
    pub open spec fn possible(self) -> bool
        decreases self.rounds.len(),
    {
        self.rounds.len() == 0 || {
            let earlier = self.up_to(self.rounds.len() - 1);
            let round = self.rounds.last();
            let first = Situation::first(
                round.job,
                round.execution(earlier.end_state()),
                round.disk,
            );
            &&& earlier.possible()
            &&& round.job.platform == self.platform
            &&& round.job.dest == self.dest
            &&& round.job.mutation == self.requests[round.job.version]
            &&& value(round.disk, self.dest) == value(earlier.end_disk(), self.dest)
            &&& first.allows_all(round.job, round.moves)
            &&& round.end(earlier.end_state()).step is Finished
        }
    }

    /// Whether the history begins in a state that the store can be in, with the file holding what
    /// the operation that changed it last asked for.
    pub open spec fn well_begun(self) -> bool {
        &&& is_key_file(self.dest)
        &&& self.state.valid()
        &&& self.state.pending_durability matches Some(pending) ==> pending.fits(self.platform)
        &&& self.state.last_change() matches Some(version) ==> value(self.disk, self.dest)
            == result_of(self.requests[version])
    }

    /// Whether no execution is about a newer version than `version`.
    pub open spec fn none_newer(self, version: u64) -> bool {
        &&& self.state.last_change() matches Some(changed) ==> changed <= version
        &&& forall|i: int|
            0 <= i < self.rounds.len() ==> (#[trigger] self.rounds[i]).job.version <= version
    }
}

/// What holds at the end of every history.
proof fn lemma_history(history: History, version: u64)
    requires
        history.well_begun(),
        history.possible(),
        history.none_newer(version),
    ensures
        history.end_state().valid(),
        history.end_state().pending_durability matches Some(pending) ==> pending.fits(
            history.platform,
        ),
        value(history.end_disk(), history.dest) == expected(
            history.end_state(),
            history.requests,
            value(history.disk, history.dest),
        ),
        history.end_state().last_change() matches Some(changed) ==> changed <= version,
        not_older(
            history.end_state().latest_applied_version,
            history.state.latest_applied_version,
        ),
        forall|i: int|
            0 <= i < history.rounds.len() && #[trigger] history.succeeded(i) ==> not_older(
                history.end_state().latest_applied_version,
                Some(history.rounds[i].job.version),
            ),
    decreases history.rounds.len(),
{
    let n = history.rounds.len();
    if n > 0 {
        let earlier = history.up_to(n - 1);
        let round = history.rounds.last();
        assert forall|i: int| 0 <= i < n - 1 implies (#[trigger] earlier.rounds[i]).job.version
            <= version by {
            assert(earlier.rounds[i] == history.rounds[i]);
        }
        lemma_history(earlier, version);
        let state = earlier.end_state();
        let execution = round.execution(state);
        let initial = value(history.disk, history.dest);
        lemma_key_file(history.dest);
        lemma_first_on_track(round.job, execution, history.requests, initial, round.disk);
        lemma_on_track(
            round.job,
            state,
            history.requests,
            initial,
            Situation::first(round.job, execution, round.disk),
            round.moves,
        );
        assert(history.rounds[n - 1].job.version <= version);
        assert forall|i: int|
            0 <= i < n && #[trigger] history.succeeded(i) implies not_older(
            history.end_state().latest_applied_version,
            Some(history.rounds[i].job.version),
        ) by {
            if i < n - 1 {
                assert(history.up_to(i).rounds =~= earlier.up_to(i).rounds);
                assert(earlier.succeeded(i));
            }
        }
    }
}

/// The file always holds what the operation that changed it last asked for, however many
/// operations were executed, in whatever order and with whatever failures.
pub proof fn law_file_holds_the_last_change(history: History)
    requires
        history.well_begun(),
        history.possible(),
    ensures
        value(history.end_disk(), history.dest) == expected(
            history.end_state(),
            history.requests,
            value(history.disk, history.dest),
        ),
{
    lemma_history(history, u64::MAX);
}

/// The file never goes back to an older version: once the change of an operation was in it, no
/// older operation's is ever in it again, whether or not the newer operation was reported as
/// applied by then.
pub proof fn law_file_never_goes_back(history: History, i: int)
    requires
        history.well_begun(),
        history.possible(),
        0 <= i <= history.rounds.len(),
    ensures
        not_older(history.end_state().last_change(), history.up_to(i).end_state().last_change()),
    decreases history.rounds.len(),
{
    let n = history.rounds.len();
    assert(history.up_to(n as int).rounds =~= history.rounds);
    if i < n {
        let earlier = history.up_to(n - 1);
        let round = history.rounds.last();
        assert(earlier.up_to(i).rounds =~= history.up_to(i).rounds);
        law_file_never_goes_back(earlier, i);
        lemma_history(earlier, u64::MAX);
        lemma_key_file(history.dest);
        law_versions_never_go_back(
            round.job,
            round.execution(earlier.end_state()),
            round.disk,
            round.moves,
        );
    }
}

/// The newest version wins: once the newest of all the operations was executed successfully, the
/// file holds what it asked for, whatever the order in which they were executed and whatever became
/// of the others.
pub proof fn law_newest_version_wins(history: History, newest: int)
    requires
        history.well_begun(),
        history.possible(),
        0 <= newest < history.rounds.len(),
        history.none_newer(history.rounds[newest].job.version),
        history.succeeded(newest),
    ensures
        value(history.end_disk(), history.dest) == result_of(
            history.requests[history.rounds[newest].job.version],
        ),
{
    lemma_history(history, history.rounds[newest].job.version);
}

impl History {
    /// Whether the execution with index `i` ended with the given status.
    pub open spec fn ended(self, i: int, status: FilesystemStoreOperationStatus) -> bool {
        self.rounds[i].end(self.up_to(i).end_state()).step == StepView::Finished(Ok(status))
    }
}

/// What holds at the end of a history on a file without a past whose executions all ended well.
proof fn lemma_all_succeeded(history: History)
    requires
        history.well_begun(),
        history.possible(),
        history.state.last_change() is None,
        forall|i: int| 0 <= i < history.rounds.len() ==> #[trigger] history.succeeded(i),
    ensures
        history.end_state().pending_durability is None,
        history.end_state().latest_applied_version matches Some(version) ==> exists|i: int|
            0 <= i < history.rounds.len() && #[trigger] history.ended(
                i,
                FilesystemStoreOperationStatus::Applied,
            ) && history.rounds[i].job.version == version,
    decreases history.rounds.len(),
{
    let n = history.rounds.len();
    if n > 0 {
        let earlier = history.up_to(n - 1);
        let round = history.rounds.last();
        assert forall|i: int| 0 <= i < n - 1 implies #[trigger] earlier.succeeded(i) by {
            assert(earlier.up_to(i).rounds =~= history.up_to(i).rounds);
            assert(history.succeeded(i));
        }
        lemma_all_succeeded(earlier);
        lemma_history(earlier, u64::MAX);
        lemma_key_file(history.dest);
        assert(history.succeeded(n - 1));
        let execution = round.execution(earlier.end_state());
        lemma_reached(round.job, execution, round.disk, round.moves);
        if history.ended(n - 1, FilesystemStoreOperationStatus::Applied) {
            assert(history.rounds[n - 1].job.version == round.job.version);
        } else if earlier.end_state().latest_applied_version is Some {
            let version = earlier.end_state().latest_applied_version->0;
            let i = choose|i: int|
                0 <= i < earlier.rounds.len() && #[trigger] earlier.ended(
                    i,
                    FilesystemStoreOperationStatus::Applied,
                ) && earlier.rounds[i].job.version == version;
            assert(earlier.up_to(i).rounds =~= history.up_to(i).rounds);
            assert(history.ended(i, FilesystemStoreOperationStatus::Applied));
        }
    }
}

/// Where all executions on a file without a past ended well, an operation was superseded exactly
/// if a newer one had been applied before.
pub proof fn law_superseded_exactly_after_a_newer_one(history: History, i: int)
    requires
        history.well_begun(),
        history.possible(),
        history.state.last_change() is None,
        forall|j: int| 0 <= j < history.rounds.len() ==> #[trigger] history.succeeded(j),
        0 <= i < history.rounds.len(),
    ensures
        history.ended(i, FilesystemStoreOperationStatus::Superseded) <==> exists|j: int|
            0 <= j < i && #[trigger] history.ended(j, FilesystemStoreOperationStatus::Applied)
                && history.rounds[j].job.version > history.rounds[i].job.version,
    decreases history.rounds.len(),
{
    let n = history.rounds.len();
    let earlier = history.up_to(n - 1);
    assert forall|j: int| 0 <= j < n - 1 implies {
        &&& #[trigger] earlier.succeeded(j)
        &&& forall|status: FilesystemStoreOperationStatus|
            earlier.ended(j, status) == #[trigger] history.ended(j, status)
    } by {
        assert(earlier.up_to(j).rounds =~= history.up_to(j).rounds);
        assert(history.succeeded(j));
    }
    if i < n - 1 {
        law_superseded_exactly_after_a_newer_one(earlier, i);
        assert(earlier.succeeded(i));
        assert forall|j: int| 0 <= j < i implies earlier.ended(
            j,
            FilesystemStoreOperationStatus::Applied,
        ) == #[trigger] history.ended(j, FilesystemStoreOperationStatus::Applied) by {
            assert(earlier.succeeded(j));
        }
        if exists|j: int|
            0 <= j < i && #[trigger] history.ended(j, FilesystemStoreOperationStatus::Applied)
                && history.rounds[j].job.version > history.rounds[i].job.version {
            let j = choose|j: int|
                0 <= j < i && #[trigger] history.ended(j, FilesystemStoreOperationStatus::Applied)
                    && history.rounds[j].job.version > history.rounds[i].job.version;
            assert(earlier.ended(j, FilesystemStoreOperationStatus::Applied));
        }
        if earlier.ended(i, FilesystemStoreOperationStatus::Superseded) {
            let j = choose|j: int|
                0 <= j < i && #[trigger] earlier.ended(j, FilesystemStoreOperationStatus::Applied)
                    && earlier.rounds[j].job.version > earlier.rounds[i].job.version;
            assert(history.ended(j, FilesystemStoreOperationStatus::Applied));
        }
    } else {
        let round = history.rounds[i];
        let execution = round.execution(earlier.end_state());
        lemma_all_succeeded(earlier);
        lemma_history(earlier, u64::MAX);
        lemma_key_file(history.dest);
        assert(history.succeeded(i));
        lemma_reached(round.job, execution, round.disk, round.moves);
        if history.ended(i, FilesystemStoreOperationStatus::Superseded) {
            let version = earlier.end_state().latest_applied_version->0;
            let j = choose|j: int|
                0 <= j < earlier.rounds.len() && #[trigger] earlier.ended(
                    j,
                    FilesystemStoreOperationStatus::Applied,
                ) && earlier.rounds[j].job.version == version;
            assert(earlier.succeeded(j));
            assert(history.ended(j, FilesystemStoreOperationStatus::Applied));
        }
        assert forall|j: int|
            0 <= j < i && #[trigger] history.ended(j, FilesystemStoreOperationStatus::Applied)
                && history.rounds[j].job.version > round.job.version implies history.ended(
            i,
            FilesystemStoreOperationStatus::Superseded,
        ) by {
            assert(earlier.succeeded(j));
            assert(earlier.rounds[j] == history.rounds[j]);
        }
    }
}

} // verus!
