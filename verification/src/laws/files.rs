//! Laws on what the operations of the store leave of it: which files it knows, who uses them, and
//! what stays as it was.

use crate::action::OutcomeView;
use crate::execution::{ExecutionView, Job, MutationView, Stage};
use crate::execution::{begin, resume};
use crate::laws::keys::{law_names_are_accepted_or_refused, plain};
use crate::locks::Lock;
use crate::namespace::NamespaceFault;
use crate::namespace::fault_error;
use crate::operation::preparation;
use crate::path::PathView;
use crate::path::dest_path;
use crate::read::ReadView;
use crate::state::{PendingDurability, Platform};
use crate::store::{OperationView, PrepareError, StoreView};
use std::path::PathBuf;
use vstd::prelude::*;

verus! {

/// Whether two stores differ in nothing but what they know of the file at `path`.
pub open spec fn differ_at_most_at(before: StoreView, after: StoreView, path: PathView) -> bool {
    &&& after.data_dir == before.data_dir
    &&& after.platform == before.platform
    &&& after.tmp_file_counter == before.tmp_file_counter
    &&& after.next_version == before.next_version
    &&& forall|other: PathView|
        other != path ==> {
            &&& #[trigger] after.locks.contains_key(other) <==> before.locks.contains_key(other)
            &&& before.locks.contains_key(other) ==> after.locks[other] == before.locks[other]
        }
}

/// A new store knows no file and is valid. Its first artifact bears the number zero.
pub proof fn law_new_store_knows_no_file(
    data_dir: PathBuf,
    platform: Platform,
    next_version: u64,
    path: PathView,
)
    ensures
        ({
            let store = StoreView::empty(data_dir, platform, next_version);
            &&& store.data_dir == data_dir
            &&& store.platform == platform
            &&& store.next_version == next_version
            &&& store.tmp_file_counter == 0
            &&& !store.locks.contains_key(path)
            &&& store.valid()
            &&& store.has_room(path)
        }),
{
}

/// One more operation can refer to a file unless as many do as the machine can count.
pub proof fn law_room_for_one_more(store: StoreView, path: PathView)
    ensures
        store.has_room(path) <==> !(store.locks.contains_key(path) && store.locks[path].refs
            == usize::MAX),
{
}

/// A new reference is counted. A file that nobody referred to is known with nothing remembered of
/// it, unused.
pub proof fn law_reference_is_counted(store: StoreView, path: PathView)
    requires
        store.has_room(path),
    ensures
        ({
            let after = store.referring(path);
            let lock = after.locks[path];
            &&& differ_at_most_at(store, after, path)
            &&& after.locks.contains_key(path)
            &&& if store.locks.contains_key(path) {
                &&& lock.refs == store.locks[path].refs + 1
                &&& lock.readers == store.locks[path].readers
                &&& lock.writing == store.locks[path].writing
                &&& lock.state == store.locks[path].state
            } else {
                &&& lock.refs == 1
                &&& lock.readers == 0
                &&& !lock.writing
                &&& lock.state.latest_operation is None
                &&& lock.state.latest_applied_version is None
                &&& lock.state.pending_durability is None
            }
        }),
{
}

/// A reference that is given up is no longer counted. A file that nobody refers to any more is
/// forgotten, unless a change of it is not durable yet.
pub proof fn law_given_up_reference_is_not_counted(store: StoreView, path: PathView)
    requires
        store.locks.contains_key(path),
        store.locks[path].refs > 0,
    ensures
        ({
            let after = store.released(path);
            let lock = store.locks[path];
            &&& differ_at_most_at(store, after, path)
            &&& after.locks.contains_key(path) <==> lock.refs > 1
                || lock.state.pending_durability is Some
            &&& after.locks.contains_key(path) ==> {
                &&& after.locks[path].refs == lock.refs - 1
                &&& after.locks[path].readers == lock.readers
                &&& after.locks[path].writing == lock.writing
                &&& after.locks[path].state == lock.state
            }
        }),
{
}

/// A read is counted while it lasts, and touches nothing else.
pub proof fn law_readers_are_counted(store: StoreView, path: PathView)
    requires
        store.locks.contains_key(path),
    ensures
        store.locks[path].readers < usize::MAX ==> {
            let after = store.reading(path);
            &&& differ_at_most_at(store, after, path)
            &&& after.locks.contains_key(path)
            &&& after.locks[path].readers == store.locks[path].readers + 1
            &&& after.locks[path].refs == store.locks[path].refs
            &&& after.locks[path].writing == store.locks[path].writing
            &&& after.locks[path].state == store.locks[path].state
        },
        store.locks[path].readers > 0 ==> {
            let after = store.done_reading(path);
            &&& differ_at_most_at(store, after, path)
            &&& after.locks.contains_key(path)
            &&& after.locks[path].readers == store.locks[path].readers - 1
            &&& after.locks[path].refs == store.locks[path].refs
            &&& after.locks[path].writing == store.locks[path].writing
            &&& after.locks[path].state == store.locks[path].state
        },
{
}

/// What is known of a file makes sense at all times: it is changed by one operation at most, and
/// not while it is read; all who use it refer to it; and it is not forgotten while somebody refers
/// to it or a change is pending.
pub proof fn law_valid_locks(lock: Lock)
    ensures
        lock.valid() <==> {
            &&& lock.state.valid()
            &&& !(lock.writing && lock.readers > 0)
            &&& lock.readers <= lock.refs
            &&& lock.writing ==> lock.refs > 0
            &&& lock.refs == 0 ==> lock.state.pending_durability is Some
        },
{
}

/// Which stores make sense: every file that is known has a name, what is known of it makes sense,
/// a change of it is pending in the way of the platform, and only versions are in use that were
/// handed out.
pub proof fn law_valid_stores(store: StoreView)
    ensures
        store.valid() <==> forall|path: PathView| #[trigger]
            store.locks.contains_key(path) ==> {
                let lock = store.locks[path];
                &&& path.len() > 0
                &&& lock.valid()
                &&& lock.state.latest_operation is Some ==> lock.state.latest_operation->0.version
                    < store.next_version
                &&& match lock.state.pending_durability {
                    None => true,
                    Some(PendingDurability::Directory { .. }) => store.platform == Platform::Unix,
                    Some(PendingDurability::File { .. }) => store.platform == Platform::Windows,
                }
            },
{
    if store.valid() {
        assert forall|path: PathView| #[trigger] store.locks.contains_key(path) implies {
            let lock = store.locks[path];
            &&& path.len() > 0
            &&& lock.valid()
            &&& lock.state.latest_operation is Some ==> lock.state.latest_operation->0.version
                < store.next_version
            &&& match lock.state.pending_durability {
                None => true,
                Some(PendingDurability::Directory { .. }) => store.platform == Platform::Unix,
                Some(PendingDurability::File { .. }) => store.platform == Platform::Windows,
            }
        } by {
            assert(store.lock_valid(path, store.locks[path]));
        }
    }
}

/// An operation that is not being executed belongs to a valid store exactly if the store knows its
/// file, handed out its version, and the file has a reference that nobody uses. So does a read
/// that has not begun, and one that has begun if the file is being read.
pub proof fn law_prepared_operations_belong_to_the_store(
    store: StoreView,
    operation: OperationView,
    read: ReadView,
)
    requires
        store.valid(),
        operation.stage == Stage::Idle,
        operation.failure is None,
    ensures
        store.attached(operation) <==> {
            let lock = store.locks[operation.dest];
            &&& store.locks.contains_key(operation.dest)
            &&& operation.version < store.next_version
            &&& if lock.writing {
                lock.readers + 1 < lock.refs
            } else {
                lock.readers < lock.refs
            }
        },
        store.attached_read(read) <==> {
            let lock = store.locks[read.path];
            &&& store.locks.contains_key(read.path)
            &&& if read.reading {
                lock.readers > 0
            } else if lock.writing {
                lock.readers + 1 < lock.refs
            } else {
                lock.readers < lock.refs
            }
        },
{
    if store.locks.contains_key(operation.dest) {
        assert(store.lock_valid(operation.dest, store.locks[operation.dest]));
    }
}

/// The first step of an execution waits exactly if the file is being changed or read. Otherwise it
/// is the first step for the operation's file, version and change, on the store's platform, from
/// what is remembered of the file and the number of the next artifact. It leaves in the store what
/// is remembered then, the number of the next artifact, and that the file is being changed until
/// the execution is over, and nothing else is touched.
pub proof fn law_first_step_works_on_the_file(store: StoreView, operation: OperationView)
    requires
        store.locks.contains_key(operation.dest),
    ensures
        ({
            let lock = store.locks[operation.dest];
            let (after, left, step) = store.execute(operation);
            let (now, first) = begin(
                Job {
                    platform: store.platform,
                    dest: operation.dest,
                    version: operation.version,
                    mutation: operation.mutation,
                },
                ExecutionView {
                    counter: store.tmp_file_counter,
                    state: lock.state,
                    stage: operation.stage,
                    failure: operation.failure,
                },
            );
            if lock.writing || lock.readers > 0 {
                step is Wait && after == store && left == operation
            } else {
                &&& step == first
                &&& left.dest == operation.dest
                &&& left.version == operation.version
                &&& left.mutation == operation.mutation
                &&& left.stage == now.stage
                &&& left.failure == now.failure
                &&& after.tmp_file_counter == now.counter
                &&& differ_at_most_at(
                    store,
                    StoreView { tmp_file_counter: store.tmp_file_counter, ..after },
                    operation.dest,
                )
                &&& after.locks.contains_key(operation.dest)
                &&& after.locks[operation.dest].state == now.state
                &&& after.locks[operation.dest].refs == lock.refs
                &&& after.locks[operation.dest].readers == lock.readers
                &&& after.locks[operation.dest].writing <==> !(first is Finished)
            }
        }),
{
}

/// Every further step of an execution works on the file in the same way.
pub proof fn law_further_step_works_on_the_file(
    store: StoreView,
    operation: OperationView,
    outcome: OutcomeView,
)
    requires
        store.locks.contains_key(operation.dest),
    ensures
        ({
            let lock = store.locks[operation.dest];
            let (after, left, step) = store.resume(operation, outcome);
            let (now, next) = resume(
                Job {
                    platform: store.platform,
                    dest: operation.dest,
                    version: operation.version,
                    mutation: operation.mutation,
                },
                ExecutionView {
                    counter: store.tmp_file_counter,
                    state: lock.state,
                    stage: operation.stage,
                    failure: operation.failure,
                },
                outcome,
            );
            &&& step == next
            &&& left.dest == operation.dest
            &&& left.version == operation.version
            &&& left.mutation == operation.mutation
            &&& left.stage == now.stage
            &&& left.failure == now.failure
            &&& after.tmp_file_counter == now.counter
            &&& differ_at_most_at(
                store,
                StoreView { tmp_file_counter: store.tmp_file_counter, ..after },
                operation.dest,
            )
            &&& after.locks.contains_key(operation.dest)
            &&& after.locks[operation.dest].state == now.state
            &&& after.locks[operation.dest].refs == lock.refs
            &&& after.locks[operation.dest].readers == lock.readers
            &&& after.locks[operation.dest].writing <==> !(next is Finished)
        }),
{
}

/// Preparing an operation succeeds exactly if the names are allowed and a version is left. It then
/// takes the next version, and a reference to the file that is called by the names; the operation
/// has yet to be executed. Otherwise nothing changes, and a name that is not allowed is answered
/// before a version that is missing.
pub proof fn law_preparation_succeeds_or_changes_nothing(
    before: StoreView,
    after: StoreView,
    primary_namespace: Seq<char>,
    secondary_namespace: Seq<char>,
    key: Seq<char>,
    name: Seq<char>,
    mutation: MutationView,
    result: Result<OperationView, PrepareError>,
)
    requires
        before.valid(),
        before.has_room(dest_path(primary_namespace, secondary_namespace, Some(key))),
        preparation(
            before,
            after,
            primary_namespace,
            secondary_namespace,
            key,
            name,
            mutation,
            result,
        ),
    ensures
        ({
            let allowed = plain(primary_namespace) && plain(secondary_namespace) && plain(key)
                && key.len() > 0 && (secondary_namespace.len() > 0 ==> primary_namespace.len() > 0);
            let path = dest_path(primary_namespace, secondary_namespace, Some(key));
            &&& result is Ok <==> allowed && before.next_version < u64::MAX
            &&& result is Err ==> {
                &&& after == before
                &&& if allowed {
                    result->Err_0 is VersionCounterOverflowed
                } else {
                    &&& result->Err_0 is Rejected
                    &&& result->Err_0->Rejected_0@ == fault_error(
                        primary_namespace,
                        secondary_namespace,
                        Some(key),
                        name,
                        if key.len() == 0 {
                            NamespaceFault::EmptyKey
                        } else if primary_namespace.len() == 0 && secondary_namespace.len() > 0 {
                            NamespaceFault::EmptyPrimaryNamespace
                        } else {
                            NamespaceFault::InvalidText
                        },
                    )
                }
            }
            &&& result is Ok ==> {
                let operation = result->Ok_0;
                &&& operation.dest == path
                &&& operation.version == before.next_version
                &&& operation.mutation == mutation
                &&& operation.stage == Stage::Idle
                &&& operation.failure is None
                &&& after.next_version == before.next_version + 1
                &&& differ_at_most_at(
                    before,
                    StoreView { next_version: before.next_version, ..after },
                    path,
                )
                &&& after.locks.contains_key(path)
                &&& after.locks[path].refs == if before.locks.contains_key(path) {
                    before.locks[path].refs + 1
                } else {
                    1
                }
                &&& after.attached(operation)
            }
        }),
{
    law_names_are_accepted_or_refused(primary_namespace, secondary_namespace, key);
}

} // verus!
