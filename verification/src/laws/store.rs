//! Laws on versions, references and the exclusion of one operation by another.

use crate::action::{OutcomeView, StepView};
use crate::execution::{MutationView, Stage};
use crate::execution::{lemma_begin_valid, lemma_resume_valid};
use crate::laws::disk::{Disk, Move, Situation};
use crate::laws::disk::runs;
use crate::laws::names::is_key_file;
use crate::locks::Lock;
use crate::namespace::namespace_fault;
use crate::operation::prepared_operation;
use crate::path::PathView;
use crate::path::dest_path;
use crate::store::{OperationView, StoreView};
use vstd::prelude::*;

verus! {

/// What a store can go through in one step.
pub enum Event {
    /// An operation on the file is prepared.
    Prepare(PathView),
    /// An execution begins.
    Execute(OperationView),
    /// An execution goes on.
    Resume(OperationView, OutcomeView),
    /// An operation on the file is released.
    Release(PathView),
    /// A read of the file is prepared.
    PrepareRead(PathView),
    /// A read of the file begins.
    Read(PathView),
    /// A read of the file ends.
    FinishRead(PathView),
}

/// The store after an event.
pub open spec fn after(store: StoreView, event: Event) -> StoreView {
    match event {
        Event::Prepare(path) => store.prepared(path),
        Event::Execute(operation) => store.execute(operation).0,
        Event::Resume(operation, outcome) => store.resume(operation, outcome).0,
        Event::Release(path) => store.released(path),
        Event::PrepareRead(path) => store.referring(path),
        Event::Read(path) => store.reading(path),
        Event::FinishRead(path) => store.done_reading(path).released(path),
    }
}

/// The store after some events.
pub open spec fn after_all(store: StoreView, events: Seq<Event>) -> StoreView
    decreases events.len(),
{
    if events.len() == 0 {
        store
    } else {
        after(after_all(store, events.drop_last()), events.last())
    }
}

/// Whether there was a version left for every operation that was prepared.
pub open spec fn versions_last(store: StoreView, events: Seq<Event>) -> bool
    decreases events.len(),
{
    events.len() == 0 || {
        &&& versions_last(store, events.drop_last())
        &&& events.last() is Prepare ==> after_all(store, events.drop_last()).next_version
            < u64::MAX
    }
}

/// Versions are handed out in the order of preparation, whatever happens in between: an operation
/// that is prepared later gets a higher version.
pub proof fn law_later_operations_get_higher_versions(store: StoreView, events: Seq<Event>)
    requires
        versions_last(store, events),
    ensures
        after_all(store, events).next_version >= store.next_version,
        events.len() > 0 && events[0] is Prepare ==> after_all(store, events).next_version
            > store.next_version,
    decreases events.len(),
{
    if events.len() > 0 {
        law_later_operations_get_higher_versions(store, events.drop_last());
        if events.len() > 1 {
            assert(events.drop_last()[0] == events[0]);
        }
    }
}

/// Preparing an operation and releasing it unexecuted leaves no trace of it but the version that it
/// took.
pub proof fn law_released_operation_leaves_no_trace(store: StoreView, path: PathView)
    requires
        store.valid(),
        store.has_room(path),
    ensures
        store.prepared(path).released(path).locks == store.locks,
{
    if store.locks.contains_key(path) {
        assert(store.lock_valid(path, store.locks[path]));
    }
    assert(store.prepared(path).released(path).locks =~= store.locks);
}

/// A read leaves no trace: once it is finished, the store is as it was.
pub proof fn law_read_leaves_no_trace(store: StoreView, path: PathView)
    requires
        store.valid(),
        store.has_room(path),
        store.locks.contains_key(path) ==> !store.locks[path].writing,
    ensures
        store.referring(path).reading(path).done_reading(path).released(path) == store,
{
    if store.locks.contains_key(path) {
        assert(store.lock_valid(path, store.locks[path]));
    }
    let read = store.referring(path).reading(path).done_reading(path).released(path);
    assert(read.locks =~= store.locks);
}

/// When the last operation that refers to a file is released, the file is forgotten, unless a
/// change of it is not durable yet: then what is known of it is kept.
pub proof fn law_last_release_forgets_all_but_pending_changes(store: StoreView, path: PathView)
    requires
        store.valid(),
        store.locks.contains_key(path),
        store.locks[path].refs == 1,
    ensures
        store.locks[path].state.pending_durability is None ==> store.released(path).locks
            == store.locks.remove(path),
        store.locks[path].state.pending_durability is Some ==> {
            &&& store.released(path).locks.contains_key(path)
            &&& store.released(path).locks[path].state == store.locks[path].state
        },
{
}

/// While an operation changes a file or a read reads it, no other operation on the file gets past
/// its first step, and nothing changes.
pub proof fn law_file_in_use_is_not_changed(store: StoreView, operation: OperationView)
    requires
        store.attached(operation),
        operation.stage == Stage::Idle,
        store.locks[operation.dest].writing || store.locks[operation.dest].readers > 0,
    ensures
        store.execute(operation) == (store, operation, StepView::Wait),
{
}

/// A file is in use from the first step of an execution to its last one, and no longer.
pub proof fn law_execution_holds_the_file_until_it_ends(
    store: StoreView,
    operation: OperationView,
    outcome: OutcomeView,
)
    requires
        store.valid(),
        store.attached(operation),
    ensures
        operation.stage == Stage::Idle && !store.locks[operation.dest].busy() ==> {
            let (after, _, step) = store.execute(operation);
            after.locks[operation.dest].writing == step is Perform
        },
        operation.stage != Stage::Idle ==> {
            let (after, _, step) = store.resume(operation, outcome);
            after.locks[operation.dest].writing == step is Perform
        },
{
    let job = operation.job(store.platform);
    if operation.stage == Stage::Idle {
        lemma_begin_valid(job, store.execution(operation));
    } else {
        lemma_resume_valid(job, store.execution(operation), outcome);
    }
}

/// Preparing an operation takes the next version, which is higher than that of every operation that
/// the store knows, and a reference to the file. Nothing else changes.
pub proof fn law_preparation_takes_a_version_and_a_reference(
    store: StoreView,
    dest: PathView,
    mutation: MutationView,
    other: OperationView,
)
    requires
        store.valid(),
        store.has_room(dest),
        store.next_version < u64::MAX,
        store.attached(other),
    ensures
        ({
            let prepared = store.prepared(dest);
            let operation = prepared_operation(store, dest, mutation);
            &&& operation.dest == dest
            &&& operation.version == store.next_version
            &&& operation.version > other.version
            &&& prepared.next_version == store.next_version + 1
            &&& prepared.locks.contains_key(dest)
            &&& prepared.locks[dest] == if store.locks.contains_key(dest) {
                Lock { refs: (store.locks[dest].refs + 1) as usize, ..store.locks[dest] }
            } else {
                Lock::fresh()
            }
            &&& prepared.locks.remove(dest) == store.locks.remove(dest)
            &&& prepared.tmp_file_counter == store.tmp_file_counter
            &&& prepared.data_dir == store.data_dir
            &&& prepared.platform == store.platform
        }),
{
    assert(store.prepared(dest).locks.remove(dest) =~= store.locks.remove(dest));
}

/// The situation of an operation's execution, as the store sees it.
pub open spec fn situation(
    store: StoreView,
    operation: OperationView,
    step: StepView,
    disk: Disk,
) -> Situation {
    Situation { execution: store.execution(operation), step, disk }
}

/// An operation on a key's file that was just prepared, and whose file is not in use, is ready to
/// run: it is newer than everything that happened to the file.
pub proof fn law_prepared_operation_is_ready(
    store: StoreView,
    primary_namespace: Seq<char>,
    secondary_namespace: Seq<char>,
    key: Seq<char>,
    mutation: MutationView,
    disk: Disk,
)
    requires
        store.valid(),
        namespace_fault(primary_namespace, secondary_namespace, Some(key)) is None,
        store.has_room(dest_path(primary_namespace, secondary_namespace, Some(key))),
        store.next_version < u64::MAX,
    ensures
        ({
            let dest = dest_path(primary_namespace, secondary_namespace, Some(key));
            let operation = prepared_operation(store, dest, mutation);
            runs(
                operation.job(store.platform),
                store.prepared(dest).execution(operation),
                disk,
                Seq::empty(),
            )
        }),
{
    let dest = dest_path(primary_namespace, secondary_namespace, Some(key));
    assert(is_key_file(dest));
    assert(dest.len() > 0);
    if store.locks.contains_key(dest) {
        assert(store.lock_valid(dest, store.locks[dest]));
    }
}

/// The steps that the store takes with an operation are those of the operation's execution.
pub proof fn law_store_takes_the_steps_of_the_execution(
    store: StoreView,
    operation: OperationView,
    step: StepView,
    disk: Disk,
    outcome: OutcomeView,
    next_disk: Disk,
)
    requires
        store.valid(),
        store.attached(operation),
    ensures
        operation.stage == Stage::Idle && !store.locks[operation.dest].busy() ==> {
            let (after, left, first) = store.execute(operation);
            situation(after, left, first, disk) == Situation::first(
                operation.job(store.platform),
                store.execution(operation),
                disk,
            )
        },
        operation.stage != Stage::Idle ==> {
            let (after, left, next) = store.resume(operation, outcome);
            situation(after, left, next, next_disk) == situation(
                store,
                operation,
                step,
                disk,
            ).next(
                operation.job(store.platform),
                Move { outcome, disk: next_disk, counter: store.tmp_file_counter },
            )
        },
{
}

} // verus!
