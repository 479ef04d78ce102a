//! What an operation asks of the filesystem, and what comes back.

use crate::error::{ErrorView, StoreError};
use crate::path::{PathView, StorePath};
use crate::state::FilesystemStoreOperationStatus;
use vstd::prelude::*;

verus! {

/// One thing to do to the filesystem, or to ask of it. Paths are below the data directory.
#[derive(Debug)]
pub enum FilesystemAction {
    /// Create a directory and those above it, as far as they are missing.
    CreateDirAll { path: StorePath },
    /// Create a file, write the contents to it and sync it.
    WriteFile { path: StorePath, contents: Vec<u8> },
    /// Rename a file, over the one at the new path if there is one.
    Rename { from: StorePath, to: StorePath },
    /// Put a file in the place of another one, which exists.
    ReplaceFile { from: StorePath, to: StorePath },
    /// Move a file and return when it has been moved.
    MoveFile { from: StorePath, to: StorePath },
    /// Delete a file.
    RemoveFile { path: StorePath },
    /// Open a directory and sync it.
    SyncDirectory { path: StorePath },
    /// Open a file for reading and writing and sync it.
    SyncFile { path: StorePath },
    /// Tell whether there is anything at a path.
    Exists { path: StorePath },
    /// Tell whether there is a file at a path.
    IsFile { path: StorePath },
}

/// What a [`FilesystemAction`] asks for.
pub enum ActionView {
    CreateDirAll { path: PathView },
    WriteFile { path: PathView, contents: Seq<u8> },
    Rename { from: PathView, to: PathView },
    ReplaceFile { from: PathView, to: PathView },
    MoveFile { from: PathView, to: PathView },
    RemoveFile { path: PathView },
    SyncDirectory { path: PathView },
    SyncFile { path: PathView },
    Exists { path: PathView },
    IsFile { path: PathView },
}

impl View for FilesystemAction {
    type V = ActionView;

    open spec fn view(&self) -> ActionView {
        match *self {
            FilesystemAction::CreateDirAll { path } => ActionView::CreateDirAll { path: path@ },
            FilesystemAction::WriteFile { path, contents } => ActionView::WriteFile {
                path: path@,
                contents: contents@,
            },
            FilesystemAction::Rename { from, to } => ActionView::Rename { from: from@, to: to@ },
            FilesystemAction::ReplaceFile { from, to } => ActionView::ReplaceFile {
                from: from@,
                to: to@,
            },
            FilesystemAction::MoveFile { from, to } => ActionView::MoveFile {
                from: from@,
                to: to@,
            },
            FilesystemAction::RemoveFile { path } => ActionView::RemoveFile { path: path@ },
            FilesystemAction::SyncDirectory { path } => ActionView::SyncDirectory { path: path@ },
            FilesystemAction::SyncFile { path } => ActionView::SyncFile { path: path@ },
            FilesystemAction::Exists { path } => ActionView::Exists { path: path@ },
            FilesystemAction::IsFile { path } => ActionView::IsFile { path: path@ },
        }
    }
}

/// What came of an action.
#[derive(Debug)]
pub enum IoOutcome {
    /// It was carried out.
    Completed,
    /// The answer to a question.
    Present(bool),
    /// It failed. A question that fails counts as answered in the negative.
    Failed(StoreError),
}

/// What an [`IoOutcome`] says.
pub enum OutcomeView {
    Completed,
    Present(bool),
    Failed(ErrorView),
}

impl View for IoOutcome {
    type V = OutcomeView;

    open spec fn view(&self) -> OutcomeView {
        match *self {
            IoOutcome::Completed => OutcomeView::Completed,
            IoOutcome::Present(present) => OutcomeView::Present(present),
            IoOutcome::Failed(error) => OutcomeView::Failed(error@),
        }
    }
}

/// What an execution comes to next.
#[derive(Debug)]
pub enum ExecuteStep {
    /// Another operation uses the file. Begin again once it has finished.
    Wait,
    /// Do this, and resume the execution with what came of it.
    Perform(FilesystemAction),
    /// The execution is over.
    Finished(Result<FilesystemStoreOperationStatus, StoreError>),
}

/// What an [`ExecuteStep`] says.
pub enum StepView {
    Wait,
    Perform(ActionView),
    Finished(Result<FilesystemStoreOperationStatus, ErrorView>),
}

/// What the result of an operation says.
pub open spec fn result_view<T>(result: Result<T, StoreError>) -> Result<T, ErrorView> {
    match result {
        Ok(value) => Ok(value),
        Err(error) => Err(error@),
    }
}

impl View for ExecuteStep {
    type V = StepView;

    open spec fn view(&self) -> StepView {
        match *self {
            ExecuteStep::Wait => StepView::Wait,
            ExecuteStep::Perform(action) => StepView::Perform(action@),
            ExecuteStep::Finished(result) => StepView::Finished(result_view(result)),
        }
    }
}

} // verus!
