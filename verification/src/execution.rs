//! How a prepared operation is carried out.
//!
//! An execution alternates between decisions, which are taken here, and filesystem actions, which
//! its caller performs. Before anything else it finishes what an earlier operation left to be made
//! durable. Then the versions decide whether the file is changed at all, and if it is, the change
//! is carried out so that the file holds either the old or the new value at every moment.

use crate::action::{ActionView, ExecuteStep, FilesystemAction, IoOutcome, OutcomeView, StepView};
use crate::action::result_view;
use crate::error::{ErrorKind, ErrorView, StoreError};
use crate::path::{Artifact, PathView, StorePath};
use crate::path::artifact_path;
use crate::state::{
    Admission, FilesystemStoreOperationState, FilesystemStoreOperationStatus, PendingDurability,
    Platform,
};
use crate::text::copy_bytes;
use vstd::prelude::*;

verus! {

/// Where an execution stands: what the outcome of the last action decides.
#[derive(Clone, Copy, Debug, PartialEq, Eq, Structural)]
pub enum Stage {
    /// No execution is under way.
    Idle,
    /// An earlier operation's change is made durable.
    Recovering,
    /// An earlier operation's trash file is deleted.
    RecoveringTrash,
    /// The directory for the file is created.
    CreatingParent,
    /// The value is written to the temporary file with this number.
    WritingTemporary { number: usize },
    /// It is found out whether there is a file to replace.
    CheckingDestination { number: usize },
    /// The temporary file takes its place.
    Replacing { number: usize },
    /// The write is made durable.
    SyncingWrite { number: usize },
    /// What may be left of the temporary file is deleted.
    CleaningUp { number: usize },
    /// It is found out whether there is a file to remove.
    CheckingFile,
    /// The file is deleted.
    RemovingFile,
    /// The file is moved to the trash file with this number.
    MovingToTrash { number: usize },
    /// The removal is made durable.
    SyncingRemoval,
    /// The trash file is deleted.
    DiscardingTrash,
}

/// The change that an operation is to make.
#[derive(Clone, Copy)]
pub(crate) enum Mutation<'a> {
    Write(&'a Vec<u8>),
    Remove { lazy: bool },
}

/// The change that an operation is to make.
pub enum MutationView {
    /// Store this value.
    Write(Seq<u8>),
    /// Remove the value; a lazy removal is not made durable.
    Remove { lazy: bool },
}

impl<'a> View for Mutation<'a> {
    type V = MutationView;

    open(crate) spec fn view(&self) -> MutationView {
        match *self {
            Mutation::Write(contents) => MutationView::Write(contents@),
            Mutation::Remove { lazy } => MutationView::Remove { lazy },
        }
    }
}

/// What an execution is about.
pub struct Job {
    pub platform: Platform,
    pub dest: PathView,
    pub version: u64,
    pub mutation: MutationView,
}

/// What an execution works on.
pub struct ExecutionView {
    /// The number of the next artifact.
    pub counter: usize,
    /// What is remembered of the operations on the file.
    pub state: FilesystemStoreOperationState,
    /// Where the execution stands.
    pub stage: Stage,
    /// The failure that the execution ends with once it has cleaned up.
    pub failure: Option<ErrorView>,
}

impl Job {
    /// The temporary file with the given number.
    pub open spec fn temporary(self, number: usize) -> PathView {
        artifact_path(self.dest, number as nat, Artifact::Temporary)
    }

    /// The trash file with the given number.
    pub open spec fn trash(self, number: usize) -> PathView {
        artifact_path(self.dest, number as nat, Artifact::Trash)
    }

    /// The action that makes a change durable.
    pub open spec fn sync(self, pending: PendingDurability) -> ActionView {
        match pending {
            PendingDurability::Directory { .. } => ActionView::SyncDirectory {
                path: self.dest.drop_last(),
            },
            PendingDurability::File { trash: Some(number), .. } => ActionView::SyncFile {
                path: self.trash(number),
            },
            PendingDurability::File { trash: None, .. } => ActionView::SyncFile {
                path: self.dest,
            },
        }
    }
}

/// The number that follows `counter`, which starts over after the largest one.
pub open spec fn next_number(counter: usize) -> usize {
    if counter == usize::MAX {
        0
    } else {
        (counter + 1) as usize
    }
}

/// The error of an operation that found a newer one under way.
pub open spec fn blocked_error() -> ErrorView {
    ErrorView {
        kind: ErrorKind::WouldBlock,
        message: Some("Filesystem store operation is blocked by a newer operation"@),
    }
}

/// The execution asks for `action` and stands at `stage`.
pub open spec fn perform(
    execution: ExecutionView,
    stage: Stage,
    action: ActionView,
) -> (ExecutionView, StepView) {
    (ExecutionView { stage, ..execution }, StepView::Perform(action))
}

/// The execution ends with `result`.
pub open spec fn finish(
    execution: ExecutionView,
    result: Result<FilesystemStoreOperationStatus, ErrorView>,
) -> (ExecutionView, StepView) {
    (
        ExecutionView { stage: Stage::Idle, failure: None, ..execution },
        StepView::Finished(result),
    )
}

/// The change is made: the version is applied and the execution ends.
pub open spec fn succeed(job: Job, execution: ExecutionView) -> (ExecutionView, StepView) {
    finish(
        ExecutionView { state: execution.state.applied(job.version), ..execution },
        Ok(FilesystemStoreOperationStatus::Applied),
    )
}

/// The change could not be made, or not be made durable, and the execution ends.
pub open spec fn fail(job: Job, execution: ExecutionView, error: ErrorView) -> (
    ExecutionView,
    StepView,
) {
    finish(
        ExecutionView { state: execution.state.failed(job.version), ..execution },
        Err(error),
    )
}

/// The temporary file is deleted before the execution ends, with `failure` if there is one.
pub open spec fn clean_up(
    job: Job,
    execution: ExecutionView,
    number: usize,
    failure: Option<ErrorView>,
) -> (ExecutionView, StepView) {
    perform(
        ExecutionView { failure, ..execution },
        Stage::CleaningUp { number },
        ActionView::RemoveFile { path: job.temporary(number) },
    )
}

/// The file was changed: the change is recorded as pending and then made durable.
pub open spec fn make_durable(
    job: Job,
    execution: ExecutionView,
    stage: Stage,
    pending: PendingDurability,
) -> (ExecutionView, StepView) {
    perform(
        ExecutionView { state: execution.state.pending(pending), ..execution },
        stage,
        job.sync(pending),
    )
}

/// Nothing is pending: the versions decide whether the file is changed.
pub open spec fn decide(job: Job, execution: ExecutionView) -> (ExecutionView, StepView) {
    match execution.state.admission(job.version) {
        Admission::Superseded => finish(execution, Ok(FilesystemStoreOperationStatus::Superseded)),
        Admission::AlreadyApplied => finish(execution, Ok(FilesystemStoreOperationStatus::Applied)),
        Admission::Blocked => finish(execution, Err(blocked_error())),
        Admission::Proceed => {
            let started = ExecutionView {
                state: execution.state.started(job.version),
                ..execution
            };
            match job.mutation {
                MutationView::Write(_) => perform(
                    started,
                    Stage::CreatingParent,
                    ActionView::CreateDirAll { path: job.dest.drop_last() },
                ),
                MutationView::Remove { .. } => perform(
                    started,
                    Stage::CheckingFile,
                    ActionView::IsFile { path: job.dest },
                ),
            }
        },
    }
}

/// The first step of an execution.
pub open spec fn begin(job: Job, execution: ExecutionView) -> (ExecutionView, StepView) {
    match execution.state.pending_durability {
        Some(pending) => perform(execution, Stage::Recovering, job.sync(pending)),
        None => decide(job, execution),
    }
}

/// The earlier operation's change is durable: its version is applied.
pub open spec fn recovered(job: Job, execution: ExecutionView) -> (ExecutionView, StepView) {
    decide(job, ExecutionView { state: execution.state.durable(), ..execution })
}

/// The step after an action of a write.
pub open spec fn resume_write(
    job: Job,
    execution: ExecutionView,
    contents: Seq<u8>,
    outcome: OutcomeView,
) -> (ExecutionView, StepView) {
    let pending = match job.platform {
        Platform::Unix => PendingDurability::Directory { version: job.version },
        Platform::Windows => PendingDurability::File { version: job.version, trash: None },
    };
    match (execution.stage, outcome) {
        (Stage::CreatingParent, OutcomeView::Failed(error)) => fail(job, execution, error),
        (Stage::CreatingParent, _) => perform(
            ExecutionView { counter: next_number(execution.counter), ..execution },
            Stage::WritingTemporary { number: execution.counter },
            ActionView::WriteFile { path: job.temporary(execution.counter), contents },
        ),
        (Stage::WritingTemporary { number }, OutcomeView::Failed(error)) => clean_up(
            job,
            execution,
            number,
            Some(error),
        ),
        (Stage::WritingTemporary { number }, _) => match job.platform {
            Platform::Unix => perform(
                execution,
                Stage::Replacing { number },
                ActionView::Rename { from: job.temporary(number), to: job.dest },
            ),
            Platform::Windows => perform(
                execution,
                Stage::CheckingDestination { number },
                ActionView::Exists { path: job.dest },
            ),
        },
        (Stage::CheckingDestination { number }, OutcomeView::Present(true)) => perform(
            execution,
            Stage::Replacing { number },
            ActionView::ReplaceFile { from: job.temporary(number), to: job.dest },
        ),
        (Stage::CheckingDestination { number }, _) => perform(
            execution,
            Stage::Replacing { number },
            ActionView::MoveFile { from: job.temporary(number), to: job.dest },
        ),
        (Stage::Replacing { number }, OutcomeView::Failed(error)) => clean_up(
            job,
            execution,
            number,
            Some(error),
        ),
        (Stage::Replacing { number }, _) => make_durable(
            job,
            execution,
            Stage::SyncingWrite { number },
            pending,
        ),
        (Stage::SyncingWrite { number }, OutcomeView::Failed(error)) => clean_up(
            job,
            execution,
            number,
            Some(error),
        ),
        (Stage::SyncingWrite { number }, _) => clean_up(
            job,
            ExecutionView { state: execution.state.durable(), ..execution },
            number,
            None,
        ),
        (_, _) => match execution.failure {
            Some(error) => fail(job, execution, error),
            None => succeed(job, execution),
        },
    }
}

/// The step after an action of a removal.
pub open spec fn resume_remove(
    job: Job,
    execution: ExecutionView,
    lazy: bool,
    outcome: OutcomeView,
) -> (ExecutionView, StepView) {
    match (execution.stage, outcome) {
        (Stage::CheckingFile, OutcomeView::Present(true)) => if lazy || job.platform
            == Platform::Unix {
            perform(execution, Stage::RemovingFile, ActionView::RemoveFile { path: job.dest })
        } else {
            perform(
                ExecutionView { counter: next_number(execution.counter), ..execution },
                Stage::MovingToTrash { number: execution.counter },
                ActionView::MoveFile { from: job.dest, to: job.trash(execution.counter) },
            )
        },
        (Stage::CheckingFile, _) => succeed(job, execution),
        (Stage::RemovingFile, OutcomeView::Failed(error)) => fail(job, execution, error),
        (Stage::RemovingFile, _) => if lazy {
            succeed(job, execution)
        } else {
            make_durable(
                job,
                execution,
                Stage::SyncingRemoval,
                PendingDurability::Directory { version: job.version },
            )
        },
        (Stage::MovingToTrash { .. }, OutcomeView::Failed(error)) => fail(job, execution, error),
        (Stage::MovingToTrash { number }, _) => make_durable(
            job,
            execution,
            Stage::SyncingRemoval,
            PendingDurability::File { version: job.version, trash: Some(number) },
        ),
        (Stage::SyncingRemoval, OutcomeView::Failed(error)) => fail(job, execution, error),
        (Stage::SyncingRemoval, _) => match execution.state.pending_durability {
            Some(PendingDurability::File { trash: Some(number), .. }) => perform(
                execution,
                Stage::DiscardingTrash,
                ActionView::RemoveFile { path: job.trash(number) },
            ),
            _ => succeed(job, ExecutionView { state: execution.state.durable(), ..execution }),
        },
        (_, _) => succeed(job, ExecutionView { state: execution.state.durable(), ..execution }),
    }
}

/// The step of an execution after an action. A question that could not be answered counts as
/// answered in the negative.
pub open spec fn resume(job: Job, execution: ExecutionView, outcome: OutcomeView) -> (
    ExecutionView,
    StepView,
) {
    match (execution.stage, outcome) {
        (Stage::Recovering, OutcomeView::Failed(error)) => finish(execution, Err(error)),
        (Stage::Recovering, _) => match execution.state.pending_durability {
            Some(PendingDurability::File { trash: Some(number), .. }) => perform(
                execution,
                Stage::RecoveringTrash,
                ActionView::RemoveFile { path: job.trash(number) },
            ),
            _ => recovered(job, execution),
        },
        (Stage::RecoveringTrash, _) => recovered(job, execution),
        (_, _) => match job.mutation {
            MutationView::Write(contents) => resume_write(job, execution, contents, outcome),
            MutationView::Remove { lazy } => resume_remove(job, execution, lazy, outcome),
        },
    }
}

/// Whether the execution has begun to change the file and has not finished yet, with its version
/// claimed and nothing pending.
pub open spec fn underway(job: Job, execution: ExecutionView) -> bool {
    &&& execution.failure is None
    &&& execution.state.pending_durability is None
    &&& claimed(job, execution)
}

/// Whether the version of the execution is claimed and not applied.
pub open spec fn claimed(job: Job, execution: ExecutionView) -> bool {
    &&& execution.state.latest_operation is Some
    &&& execution.state.latest_operation->0.version >= job.version
    &&& execution.state.latest_applied_version matches Some(applied) ==> applied < job.version
}

/// What holds of an execution at each stage, so that the steps that follow make sense.
pub open spec fn execution_valid(job: Job, execution: ExecutionView) -> bool {
    let pending = execution.state.pending_durability;
    &&& job.dest.len() > 0
    &&& execution.state.valid()
    &&& pending is Some ==> pending->0.fits(job.platform)
    &&& match execution.stage {
        Stage::Idle => execution.failure is None,
        Stage::Recovering => execution.failure is None && pending is Some,
        Stage::RecoveringTrash => execution.failure is None && pending is Some
            && pending->0.trash() is Some,
        Stage::CreatingParent | Stage::WritingTemporary { .. } | Stage::Replacing {
            ..
        } => job.mutation is Write && underway(job, execution),
        Stage::CheckingDestination { .. } => job.mutation is Write && job.platform
            == Platform::Windows && underway(job, execution),
        Stage::SyncingWrite { .. } => {
            &&& job.mutation is Write
            &&& execution.failure is None
            &&& pending is Some
            &&& pending->0.spec_version() == job.version
            &&& pending->0.trash() is None
            &&& claimed(job, execution)
        },
        Stage::CleaningUp { .. } => {
            &&& job.mutation is Write
            &&& if execution.failure is Some {
                &&& pending is Some ==> pending->0.spec_version() == job.version
                &&& claimed(job, execution)
            } else {
                &&& pending is None
                &&& execution.state.latest_applied_version == Some(job.version)
            }
        },
        Stage::CheckingFile => job.mutation is Remove && underway(job, execution),
        Stage::RemovingFile => {
            &&& job.mutation is Remove
            &&& job.mutation->lazy || job.platform == Platform::Unix
            &&& underway(job, execution)
        },
        Stage::MovingToTrash { .. } => {
            &&& job.mutation is Remove
            &&& !job.mutation->lazy
            &&& job.platform == Platform::Windows
            &&& underway(job, execution)
        },
        Stage::SyncingRemoval => {
            &&& job.mutation is Remove
            &&& execution.failure is None
            &&& pending is Some
            &&& pending->0.spec_version() == job.version
            &&& job.platform == Platform::Windows ==> pending->0.trash() is Some
            &&& claimed(job, execution)
        },
        Stage::DiscardingTrash => {
            &&& job.mutation is Remove
            &&& execution.failure is None
            &&& pending is Some
            &&& pending->0.spec_version() == job.version
            &&& pending->0.trash() is Some
            &&& claimed(job, execution)
        },
    }
}

/// The first step keeps an execution valid.
pub proof fn lemma_begin_valid(job: Job, execution: ExecutionView)
    requires
        execution_valid(job, execution),
        execution.stage == Stage::Idle,
    ensures
        execution_valid(job, begin(job, execution).0),
        begin(job, execution).1 is Finished <==> begin(job, execution).0.stage == Stage::Idle,
        !(begin(job, execution).1 is Wait),
{
}

/// Every further step keeps an execution valid.
pub proof fn lemma_resume_valid(job: Job, execution: ExecutionView, outcome: OutcomeView)
    requires
        execution_valid(job, execution),
        execution.stage != Stage::Idle,
    ensures
        execution_valid(job, resume(job, execution, outcome).0),
        resume(job, execution, outcome).1 is Finished <==> resume(job, execution, outcome).0.stage
            == Stage::Idle,
        !(resume(job, execution, outcome).1 is Wait),
{
}

/// An operation with its version reserved, and where its execution stands.
pub(crate) struct PreparedFilesystemStoreOperation {
    pub(crate) dest_file_path: StorePath,
    pub(crate) version: u64,
    pub(crate) stage: Stage,
    pub(crate) failure: Option<StoreError>,
}

/// What a failure that may be missing says.
pub open spec fn failure_view(failure: Option<StoreError>) -> Option<ErrorView> {
    match failure {
        Some(error) => Some(error@),
        None => None,
    }
}

/// The number after `counter`.
fn number_after(counter: usize) -> (number: usize)
    ensures
        number == next_number(counter),
{
    if counter == usize::MAX {
        0
    } else {
        counter + 1
    }
}

impl PreparedFilesystemStoreOperation {
    /// What the operation is about.
    pub(crate) open(crate) spec fn job(self, mutation: MutationView, platform: Platform) -> Job {
        Job { platform, dest: self.dest_file_path@, version: self.version, mutation }
    }

    /// What the operation's execution works on.
    pub(crate) open(crate) spec fn execution(
        self,
        counter: usize,
        state: FilesystemStoreOperationState,
    ) -> ExecutionView {
        ExecutionView { counter, state, stage: self.stage, failure: failure_view(self.failure) }
    }

    /// Whether this is still the operation `before`, at whatever stage.
    pub(crate) open(crate) spec fn same_operation(
        self,
        before: PreparedFilesystemStoreOperation,
    ) -> bool {
        self.dest_file_path == before.dest_file_path && self.version == before.version
    }

    fn perform(&mut self, stage: Stage, action: FilesystemAction) -> (step: ExecuteStep)
        ensures
            final(self).same_operation(*old(self)),
            forall|counter: usize, state: FilesystemStoreOperationState|
                (#[trigger] final(self).execution(counter, state), step@) == perform(
                    old(self).execution(counter, state),
                    stage,
                    action@,
                ),
    {
        self.stage = stage;
        ExecuteStep::Perform(action)
    }

    fn finish(
        &mut self,
        result: Result<FilesystemStoreOperationStatus, StoreError>,
    ) -> (step: ExecuteStep)
        ensures
            final(self).same_operation(*old(self)),
            forall|counter: usize, state: FilesystemStoreOperationState|
                (#[trigger] final(self).execution(counter, state), step@) == finish(
                    old(self).execution(counter, state),
                    result_view(result),
                ),
    {
        self.stage = Stage::Idle;
        self.failure = None;
        ExecuteStep::Finished(result)
    }

    fn succeed(
        &mut self,
        Ghost(job): Ghost<Job>,
        Ghost(counter): Ghost<usize>,
        state: &mut FilesystemStoreOperationState,
    ) -> (step: ExecuteStep)
        requires
            job.version == old(self).version,
        ensures
            final(self).same_operation(*old(self)),
            (final(self).execution(counter, *final(state)), step@) == succeed(
                job,
                old(self).execution(counter, *old(state)),
            ),
    {
        state.mark_version_applied(self.version);
        self.finish(Ok(FilesystemStoreOperationStatus::Applied))
    }

    fn fail(
        &mut self,
        Ghost(job): Ghost<Job>,
        Ghost(counter): Ghost<usize>,
        state: &mut FilesystemStoreOperationState,
        error: StoreError,
    ) -> (step: ExecuteStep)
        requires
            job.version == old(self).version,
        ensures
            final(self).same_operation(*old(self)),
            (final(self).execution(counter, *final(state)), step@) == fail(
                job,
                old(self).execution(counter, *old(state)),
                error@,
            ),
    {
        state.mark_version_failed(self.version);
        self.finish(Err(error))
    }

    fn clean_up(
        &mut self,
        Ghost(job): Ghost<Job>,
        Ghost(counter): Ghost<usize>,
        state: &FilesystemStoreOperationState,
        number: usize,
        failure: Option<StoreError>,
    ) -> (step: ExecuteStep)
        requires
            old(self).dest_file_path@.len() > 0,
            job.dest == old(self).dest_file_path@,
        ensures
            final(self).same_operation(*old(self)),
            (final(self).execution(counter, *state), step@) == clean_up(
                job,
                old(self).execution(counter, *state),
                number,
                failure_view(failure),
            ),
    {
        let path = self.dest_file_path.artifact(number, Artifact::Temporary);
        self.failure = failure;
        self.perform(Stage::CleaningUp { number }, FilesystemAction::RemoveFile { path })
    }

    /// The action that makes a change durable.
    fn sync(&self, Ghost(job): Ghost<Job>, pending: PendingDurability) -> (action: FilesystemAction)
        requires
            self.dest_file_path@.len() > 0,
            job.dest == self.dest_file_path@,
        ensures
            action@ == job.sync(pending),
    {
        match pending {
            PendingDurability::Directory { .. } => FilesystemAction::SyncDirectory {
                path: self.dest_file_path.parent(),
            },
            PendingDurability::File { trash: Some(number), .. } => FilesystemAction::SyncFile {
                path: self.dest_file_path.artifact(number, Artifact::Trash),
            },
            PendingDurability::File { trash: None, .. } => FilesystemAction::SyncFile {
                path: self.dest_file_path.duplicate(),
            },
        }
    }

    fn make_durable(
        &mut self,
        Ghost(job): Ghost<Job>,
        Ghost(counter): Ghost<usize>,
        state: &mut FilesystemStoreOperationState,
        stage: Stage,
        pending: PendingDurability,
    ) -> (step: ExecuteStep)
        requires
            old(self).dest_file_path@.len() > 0,
            job.dest == old(self).dest_file_path@,
        ensures
            final(self).same_operation(*old(self)),
            (final(self).execution(counter, *final(state)), step@) == make_durable(
                job,
                old(self).execution(counter, *old(state)),
                stage,
                pending,
            ),
    {
        let action = self.sync(Ghost(job), pending);
        state.pending_durability = Some(pending);
        self.perform(stage, action)
    }

    /// Decides by the versions whether the file is changed, and begins to change it.
    fn decide(
        &mut self,
        mutation: Mutation<'_>,
        Ghost(platform): Ghost<Platform>,
        Ghost(counter): Ghost<usize>,
        state: &mut FilesystemStoreOperationState,
    ) -> (step: ExecuteStep)
        requires
            old(self).dest_file_path@.len() > 0,
            old(state).valid(),
        ensures
            final(self).same_operation(*old(self)),
            (final(self).execution(counter, *final(state)), step@) == decide(
                old(self).job(mutation@, platform),
                old(self).execution(counter, *old(state)),
            ),
    {
        match state.judge(self.version) {
            Admission::Superseded => self.finish(Ok(FilesystemStoreOperationStatus::Superseded)),
            Admission::AlreadyApplied => self.finish(Ok(FilesystemStoreOperationStatus::Applied)),
            Admission::Blocked => {
                let error = StoreError::new(
                    ErrorKind::WouldBlock,
                    "Filesystem store operation is blocked by a newer operation".to_owned(),
                );
                self.finish(Err(error))
            },
            Admission::Proceed => {
                state.claim_version(self.version);
                match mutation {
                    Mutation::Write(_) => {
                        let path = self.dest_file_path.parent();
                        self.perform(
                            Stage::CreatingParent,
                            FilesystemAction::CreateDirAll { path },
                        )
                    },
                    Mutation::Remove { .. } => {
                        let path = self.dest_file_path.duplicate();
                        self.perform(Stage::CheckingFile, FilesystemAction::IsFile { path })
                    },
                }
            },
        }
    }

    /// Takes the first step of an execution.
    pub(crate) fn begin(
        &mut self,
        mutation: Mutation<'_>,
        Ghost(platform): Ghost<Platform>,
        Ghost(counter): Ghost<usize>,
        state: &mut FilesystemStoreOperationState,
    ) -> (step: ExecuteStep)
        requires
            old(self).dest_file_path@.len() > 0,
            old(state).valid(),
        ensures
            final(self).same_operation(*old(self)),
            (final(self).execution(counter, *final(state)), step@) == begin(
                old(self).job(mutation@, platform),
                old(self).execution(counter, *old(state)),
            ),
    {
        match state.pending_durability {
            Some(pending) => {
                let action = self.sync(Ghost(self.job(mutation@, platform)), pending);
                self.perform(Stage::Recovering, action)
            },
            None => self.decide(mutation, Ghost(platform), Ghost(counter), state),
        }
    }

    /// Records that the pending change is durable and goes on to the decision.
    fn recovered(
        &mut self,
        mutation: Mutation<'_>,
        Ghost(platform): Ghost<Platform>,
        Ghost(counter): Ghost<usize>,
        state: &mut FilesystemStoreOperationState,
    ) -> (step: ExecuteStep)
        requires
            old(self).dest_file_path@.len() > 0,
            old(state).valid(),
        ensures
            final(self).same_operation(*old(self)),
            (final(self).execution(counter, *final(state)), step@) == recovered(
                old(self).job(mutation@, platform),
                old(self).execution(counter, *old(state)),
            ),
    {
        state.complete_pending();
        self.decide(mutation, Ghost(platform), Ghost(counter), state)
    }

    /// Takes the step after an action of a write.
    ///
    /// The value goes to a temporary file, which is synced and then takes the place of the old
    /// file, so that neither a failure nor a crash can leave a part of a value behind.
    fn write(
        &mut self,
        contents: &Vec<u8>,
        platform: Platform,
        counter: &mut usize,
        state: &mut FilesystemStoreOperationState,
        outcome: IoOutcome,
    ) -> (step: ExecuteStep)
        requires
            execution_valid(
                old(self).job(MutationView::Write(contents@), platform),
                old(self).execution(*old(counter), *old(state)),
            ),
        ensures
            final(self).same_operation(*old(self)),
            (final(self).execution(*final(counter), *final(state)), step@) == resume_write(
                old(self).job(MutationView::Write(contents@), platform),
                old(self).execution(*old(counter), *old(state)),
                contents@,
                outcome@,
            ),
    {
        let ghost job = self.job(MutationView::Write(contents@), platform);
        match (self.stage, outcome) {
            (Stage::CreatingParent, IoOutcome::Failed(error)) => self.fail(
                Ghost(job),
                Ghost(*counter),
                state,
                error,
            ),
            (Stage::CreatingParent, _) => {
                let number: usize = *counter;
                *counter = number_after(number);
                let path = self.dest_file_path.artifact(number, Artifact::Temporary);
                let contents: Vec<u8> = copy_bytes(contents.as_slice());
                self.perform(
                    Stage::WritingTemporary { number },
                    FilesystemAction::WriteFile { path, contents },
                )
            },
            (Stage::WritingTemporary { number }, IoOutcome::Failed(error)) => self.clean_up(
                Ghost(job),
                Ghost(*counter),
                state,
                number,
                Some(error),
            ),
            (Stage::WritingTemporary { number }, _) => match platform {
                Platform::Unix => {
                    let from = self.dest_file_path.artifact(number, Artifact::Temporary);
                    let to = self.dest_file_path.duplicate();
                    self.perform(Stage::Replacing { number }, FilesystemAction::Rename { from, to })
                },
                Platform::Windows => {
                    let path = self.dest_file_path.duplicate();
                    self.perform(
                        Stage::CheckingDestination { number },
                        FilesystemAction::Exists { path },
                    )
                },
            },
            (Stage::CheckingDestination { number }, outcome) => {
                let from = self.dest_file_path.artifact(number, Artifact::Temporary);
                let to = self.dest_file_path.duplicate();
                let action = match outcome {
                    IoOutcome::Present(true) => FilesystemAction::ReplaceFile { from, to },
                    _ => FilesystemAction::MoveFile { from, to },
                };
                self.perform(Stage::Replacing { number }, action)
            },
            (Stage::Replacing { number }, IoOutcome::Failed(error)) => self.clean_up(
                Ghost(job),
                Ghost(*counter),
                state,
                number,
                Some(error),
            ),
            (Stage::Replacing { number }, _) => {
                // Recorded before the sync, so that a failed sync is not mistaken for a write that
                // was never made.
                let pending = match platform {
                    Platform::Unix => PendingDurability::Directory { version: self.version },
                    Platform::Windows => PendingDurability::File {
                        version: self.version,
                        trash: None,
                    },
                };
                self.make_durable(
                    Ghost(job),
                    Ghost(*counter),
                    state,
                    Stage::SyncingWrite { number },
                    pending,
                )
            },
            (Stage::SyncingWrite { number }, IoOutcome::Failed(error)) => self.clean_up(
                Ghost(job),
                Ghost(*counter),
                state,
                number,
                Some(error),
            ),
            (Stage::SyncingWrite { number }, _) => {
                state.complete_pending();
                self.clean_up(Ghost(job), Ghost(*counter), state, number, None)
            },
            (_, _) => match self.failure.take() {
                Some(error) => self.fail(Ghost(job), Ghost(*counter), state, error),
                None => self.succeed(Ghost(job), Ghost(*counter), state),
            },
        }
    }

    /// Takes the step after an action of a removal.
    fn remove(
        &mut self,
        lazy: bool,
        platform: Platform,
        counter: &mut usize,
        state: &mut FilesystemStoreOperationState,
        outcome: IoOutcome,
    ) -> (step: ExecuteStep)
        requires
            execution_valid(
                old(self).job(MutationView::Remove { lazy }, platform),
                old(self).execution(*old(counter), *old(state)),
            ),
        ensures
            final(self).same_operation(*old(self)),
            (final(self).execution(*final(counter), *final(state)), step@) == resume_remove(
                old(self).job(MutationView::Remove { lazy }, platform),
                old(self).execution(*old(counter), *old(state)),
                lazy,
                outcome@,
            ),
    {
        let ghost job = self.job(MutationView::Remove { lazy }, platform);
        match (self.stage, outcome) {
            (Stage::CheckingFile, IoOutcome::Present(true)) => {
                if lazy || platform == Platform::Unix {
                    let path = self.dest_file_path.duplicate();
                    self.perform(Stage::RemovingFile, FilesystemAction::RemoveFile { path })
                } else {
                    let number: usize = *counter;
                    *counter = number_after(number);
                    let from = self.dest_file_path.duplicate();
                    let to = self.dest_file_path.artifact(number, Artifact::Trash);
                    self.perform(
                        Stage::MovingToTrash { number },
                        FilesystemAction::MoveFile { from, to },
                    )
                }
            },
            (Stage::CheckingFile, _) => self.succeed(Ghost(job), Ghost(*counter), state),
            (Stage::RemovingFile, IoOutcome::Failed(error)) => self.fail(
                Ghost(job),
                Ghost(*counter),
                state,
                error,
            ),
            (Stage::RemovingFile, _) => {
                if lazy {
                    self.succeed(Ghost(job), Ghost(*counter), state)
                } else {
                    // A removed directory entry can be lost in a crash until the directory is
                    // synced. If the sync fails, whichever operation comes next repeats it.
                    let pending = PendingDurability::Directory { version: self.version };
                    self.make_durable(
                        Ghost(job),
                        Ghost(*counter),
                        state,
                        Stage::SyncingRemoval,
                        pending,
                    )
                }
            },
            (Stage::MovingToTrash { .. }, IoOutcome::Failed(error)) => self.fail(
                Ghost(job),
                Ghost(*counter),
                state,
                error,
            ),
            (Stage::MovingToTrash { number }, _) => {
                let pending = PendingDurability::File {
                    version: self.version,
                    trash: Some(number),
                };
                self.make_durable(
                    Ghost(job),
                    Ghost(*counter),
                    state,
                    Stage::SyncingRemoval,
                    pending,
                )
            },
            (Stage::SyncingRemoval, IoOutcome::Failed(error)) => self.fail(
                Ghost(job),
                Ghost(*counter),
                state,
                error,
            ),
            (Stage::SyncingRemoval, _) => match state.pending_durability {
                Some(PendingDurability::File { trash: Some(number), .. }) => {
                    // The removal is durable. A trash file that stays behind does no harm.
                    let path = self.dest_file_path.artifact(number, Artifact::Trash);
                    self.perform(Stage::DiscardingTrash, FilesystemAction::RemoveFile { path })
                },
                _ => {
                    state.complete_pending();
                    self.succeed(Ghost(job), Ghost(*counter), state)
                },
            },
            (_, _) => {
                state.complete_pending();
                self.succeed(Ghost(job), Ghost(*counter), state)
            },
        }
    }

    /// Takes the step of an execution after an action.
    pub(crate) fn resume(
        &mut self,
        mutation: Mutation<'_>,
        platform: Platform,
        counter: &mut usize,
        state: &mut FilesystemStoreOperationState,
        outcome: IoOutcome,
    ) -> (step: ExecuteStep)
        requires
            execution_valid(
                old(self).job(mutation@, platform),
                old(self).execution(*old(counter), *old(state)),
            ),
        ensures
            final(self).same_operation(*old(self)),
            (final(self).execution(*final(counter), *final(state)), step@) == resume(
                old(self).job(mutation@, platform),
                old(self).execution(*old(counter), *old(state)),
                outcome@,
            ),
    {
        match (self.stage, outcome) {
            (Stage::Recovering, IoOutcome::Failed(error)) => self.finish(Err(error)),
            (Stage::Recovering, _) => match state.pending_durability {
                Some(PendingDurability::File { trash: Some(number), .. }) => {
                    let path = self.dest_file_path.artifact(number, Artifact::Trash);
                    self.perform(Stage::RecoveringTrash, FilesystemAction::RemoveFile { path })
                },
                _ => self.recovered(mutation, Ghost(platform), Ghost(*counter), state),
            },
            (Stage::RecoveringTrash, _) => self.recovered(
                mutation,
                Ghost(platform),
                Ghost(*counter),
                state,
            ),
            (_, outcome) => match mutation {
                Mutation::Write(contents) => self.write(
                    contents,
                    platform,
                    counter,
                    state,
                    outcome,
                ),
                Mutation::Remove { lazy } => self.remove(lazy, platform, counter, state, outcome),
            },
        }
    }
}

} // verus!
