//! Laws on what actions, outcomes, steps and errors say: nothing is lost and nothing is confused.

use crate::action::{ActionView, ExecuteStep, FilesystemAction, IoOutcome, OutcomeView, StepView};
use crate::error::StoreError;
use crate::execution::failure_view;
use crate::listing::{
    DirEntryPath, EntryKind, ListAction, ListOutcome, ListOutcomeView, ListStep, ListStepView,
};
use crate::listing::{entry_view, keys_step};
use crate::migration::all_keys_step;
use crate::namespace::key_view;
use crate::state::FilesystemStoreOperationStatus;
use vstd::prelude::*;

verus! {

/// An action asks for what it is called, at the paths that it carries.
pub proof fn law_actions_say_what_they_ask_for(action: FilesystemAction)
    ensures
        match action {
            FilesystemAction::CreateDirAll { path } => action@ == (ActionView::CreateDirAll {
                path: path@,
            }),
            FilesystemAction::WriteFile { path, contents } => action@ == (ActionView::WriteFile {
                path: path@,
                contents: contents@,
            }),
            FilesystemAction::Rename { from, to } => action@ == (ActionView::Rename {
                from: from@,
                to: to@,
            }),
            FilesystemAction::ReplaceFile { from, to } => action@ == (ActionView::ReplaceFile {
                from: from@,
                to: to@,
            }),
            FilesystemAction::MoveFile { from, to } => action@ == (ActionView::MoveFile {
                from: from@,
                to: to@,
            }),
            FilesystemAction::RemoveFile { path } => action@ == (ActionView::RemoveFile {
                path: path@,
            }),
            FilesystemAction::SyncDirectory { path } => action@ == (ActionView::SyncDirectory {
                path: path@,
            }),
            FilesystemAction::SyncFile { path } => action@ == (ActionView::SyncFile {
                path: path@,
            }),
            FilesystemAction::Exists { path } => action@ == (ActionView::Exists {
                path: path@,
            }),
            FilesystemAction::IsFile { path } => action@ == (ActionView::IsFile {
                path: path@,
            }),
        },
{
}

/// Two errors say the same exactly if they are of the same kind and carry the same message, or
/// none.
pub proof fn law_errors_say_their_kind_and_message(a: StoreError, b: StoreError)
    ensures
        a@.kind == a.kind,
        a@.message is None <==> a.message is None,
        a.message is Some ==> a@.message->0 == a.message->0@,
        a@ == b@ <==> a.kind == b.kind && match (a.message, b.message) {
            (Some(x), Some(y)) => x@ == y@,
            (None, None) => true,
            _ => false,
        },
{
}

/// A key that is given is given, even if it is empty, and so is a failure.
pub proof fn law_missing_things_are_missing(key: &str, error: StoreError)
    ensures
        key_view(Some(key)) == Some(key@),
        key_view(None) is None,
        failure_view(Some(error)) == Some(error@),
        failure_view(None) is None,
{
}

/// An outcome of an action says what came of it.
pub proof fn law_outcomes_say_what_came_of_an_action(present: bool, error: StoreError)
    ensures
        IoOutcome::Completed@ == OutcomeView::Completed,
        IoOutcome::Present(present)@ == OutcomeView::Present(present),
        IoOutcome::Failed(error)@ == OutcomeView::Failed(error@),
{
}

/// A step of an execution says what it comes to.
pub proof fn law_steps_say_what_comes_next(
    action: FilesystemAction,
    status: FilesystemStoreOperationStatus,
    error: StoreError,
)
    ensures
        ExecuteStep::Wait@ == StepView::Wait,
        ExecuteStep::Perform(action)@ == StepView::Perform(action@),
        ExecuteStep::Finished(Ok(status))@ == StepView::Finished(Ok(status)),
        ExecuteStep::Finished(Err(error))@ == StepView::Finished(Err(error@)),
{
}

/// An outcome of what a listing asked for says what came of it.
pub proof fn law_list_outcomes_say_what_came_of_an_action(
    present: bool,
    entry: DirEntryPath,
    kind: EntryKind,
    error: StoreError,
)
    ensures
        ListOutcome::Present(present)@ == ListOutcomeView::Present(present),
        ListOutcome::Completed@ == ListOutcomeView::Completed,
        ListOutcome::Entry(entry)@ == ListOutcomeView::Entry(entry@),
        ListOutcome::End@ == ListOutcomeView::End,
        ListOutcome::Kind(kind)@ == ListOutcomeView::Kind(kind),
        ListOutcome::Failed(error)@ == ListOutcomeView::Failed(error@),
        entry@.path == entry.path@,
        entry@.shown is Some <==> entry.shown is Some,
        entry.shown is Some ==> entry@.shown->0 == entry.shown->0@,
        entry.path@.len() > 0 ==> entry@.file_name() == entry.path@[entry.path@.len() - 1],
        entry.path@.len() == 0 ==> entry@.file_name().len() == 0,
        entry_view(Some(entry)) == Some(entry@),
        entry_view(None) is None,
{
}

/// A step of a listing says what it comes to, and the keys that it ends with one by one.
pub proof fn law_list_steps_say_what_comes_next(
    action: ListAction,
    error: StoreError,
    keys: Vec<String>,
    all_keys: Vec<(String, String, String)>,
)
    ensures
        keys_step(ListStep::Wait) == ListStepView::<Seq<Seq<char>>>::Wait,
        keys_step(ListStep::Perform(action)) == ListStepView::<Seq<Seq<char>>>::Perform(action),
        keys_step(ListStep::Finished(Err(error))) == ListStepView::<Seq<Seq<char>>>::Finished(
            Err(error@),
        ),
        ({
            let step = keys_step(ListStep::Finished(Ok(keys)));
            &&& step is Finished
            &&& step->Finished_0 is Ok
            &&& step->Finished_0->Ok_0.len() == keys@.len()
            &&& forall|i: int|
                0 <= i < keys@.len() ==> #[trigger] step->Finished_0->Ok_0[i] == keys@[i]@
        }),
        all_keys_step(ListStep::Wait) is Wait,
        all_keys_step(ListStep::Perform(action)) is Perform,
        all_keys_step(ListStep::Perform(action))->Perform_0 == action,
        all_keys_step(ListStep::Finished(Err(error))) is Finished,
        all_keys_step(ListStep::Finished(Err(error)))->Finished_0 is Err,
        all_keys_step(ListStep::Finished(Err(error)))->Finished_0->Err_0 == error@,
        ({
            let step = all_keys_step(ListStep::Finished(Ok(all_keys)));
            &&& step is Finished
            &&& step->Finished_0 is Ok
            &&& step->Finished_0->Ok_0.len() == all_keys@.len()
            &&& forall|i: int|
                0 <= i < all_keys@.len() ==> #[trigger] step->Finished_0->Ok_0[i] == (
                    all_keys@[i].0@,
                    all_keys@[i].1@,
                    all_keys@[i].2@,
                )
        }),
{
}

} // verus!
