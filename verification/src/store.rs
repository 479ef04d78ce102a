//! The store: versions, references to files, and the operations on them.

use crate::action::{ExecuteStep, IoOutcome, OutcomeView, StepView};
use crate::error::{ErrorView, StoreError};
use crate::execution::{
    ExecutionView, Job, Mutation, MutationView, PreparedFilesystemStoreOperation, Stage,
};
use crate::execution::{begin, execution_valid, failure_view, resume};
use crate::execution::{lemma_begin_valid, lemma_resume_valid};
use crate::listing::EntryFate;
use crate::locks::{Lock, LockTable};
use crate::locks::{any_writing, pending_trash};
use crate::namespace::{check_namespace_key_validity, fault_error, key_view, namespace_fault};
use crate::path::{PathView, StorePath};
use crate::path::{dest_path, get_dest_dir_path};
use crate::state::Platform;
use std::path::PathBuf;
use vstd::prelude::*;

verus! {

/// The path of the data directory, which the store only carries.
#[verifier::external_type_specification]
#[verifier::external_body]
pub struct ExPathBuf(std::path::PathBuf);

/// Cloning a [`std::path::PathBuf`] gives the same path.
pub assume_specification[ <std::path::PathBuf as Clone>::clone ](
    path: &std::path::PathBuf,
) -> (copy: std::path::PathBuf)
    ensures
        copy == *path,
;

/// The decisions of a key-value store that keeps each value in a file of its own.
///
/// Every operation that changes a file gets a version when it is prepared, and versions decide
/// which operation prevails when they are executed in another order. The store itself touches no
/// file: executing an operation yields the actions to perform.
pub struct FilesystemStore {
    data_dir: PathBuf,
    platform: Platform,
    tmp_file_counter: usize,
    next_version: u64,
    locks: LockTable,
}

/// What a [`FilesystemStore`] holds.
pub struct StoreView {
    pub data_dir: PathBuf,
    pub platform: Platform,
    /// The number of the next temporary or trash file.
    pub tmp_file_counter: usize,
    /// The version of the next operation.
    pub next_version: u64,
    /// The files that operations refer to.
    pub locks: Map<PathView, Lock>,
}

/// What a prepared operation holds.
pub struct OperationView {
    pub dest: PathView,
    pub version: u64,
    pub mutation: MutationView,
    pub stage: Stage,
    pub failure: Option<ErrorView>,
}

/// Why an operation was not prepared.
#[derive(Debug)]
pub enum PrepareError {
    /// The namespaces or the key are not allowed.
    Rejected(StoreError),
    /// There are no versions left.
    VersionCounterOverflowed,
}

impl OperationView {
    /// What the operation is about, on the given platform.
    pub open spec fn job(self, platform: Platform) -> Job {
        Job { platform, dest: self.dest, version: self.version, mutation: self.mutation }
    }

    /// The operation as an execution left it.
    pub open spec fn after(self, execution: ExecutionView) -> OperationView {
        OperationView { stage: execution.stage, failure: execution.failure, ..self }
    }
}

impl StoreView {
    /// The store without operations.
    pub open spec fn empty(data_dir: PathBuf, platform: Platform, next_version: u64) -> StoreView {
        StoreView {
            data_dir,
            platform,
            tmp_file_counter: 0,
            next_version,
            locks: Map::empty(),
        }
    }

    /// What holds of the store at all times.
    pub open spec fn valid(self) -> bool {
        forall|path: PathView| #[trigger]
            self.locks.contains_key(path) ==> self.lock_valid(path, self.locks[path])
    }

    /// What holds of the lock of a file: it is a file's and not the data directory's, its changes
    /// are made durable as the platform asks for, and no version is in use that was not handed out.
    pub open spec fn lock_valid(self, path: PathView, lock: Lock) -> bool {
        &&& path.len() > 0
        &&& lock.valid()
        &&& lock.state.pending_durability matches Some(pending) ==> pending.fits(self.platform)
        &&& lock.state.latest_operation matches Some(latest) ==> latest.version < self.next_version
    }

    /// Whether one more operation can refer to the file at `path`.
    pub open spec fn has_room(self, path: PathView) -> bool {
        self.locks.contains_key(path) ==> self.locks[path].refs < usize::MAX
    }

    /// The store with one more reference to the file at `path`.
    pub open spec fn referring(self, path: PathView) -> StoreView {
        StoreView {
            locks: self.locks.insert(
                path,
                if self.locks.contains_key(path) {
                    Lock { refs: (self.locks[path].refs + 1) as usize, ..self.locks[path] }
                } else {
                    Lock::fresh()
                },
            ),
            ..self
        }
    }

    /// The store with one reference less to the file at `path`.
    pub open spec fn released(self, path: PathView) -> StoreView {
        StoreView {
            locks: if self.locks[path].dispensable() {
                self.locks.remove(path)
            } else {
                self.locks.insert(
                    path,
                    Lock { refs: (self.locks[path].refs - 1) as usize, ..self.locks[path] },
                )
            },
            ..self
        }
    }

    /// The store after an operation on the file at `path` was prepared.
    pub open spec fn prepared(self, path: PathView) -> StoreView {
        StoreView { next_version: (self.next_version + 1) as u64, ..self.referring(path) }
    }

    /// What an execution of `operation` works on.
    pub open spec fn execution(self, operation: OperationView) -> ExecutionView {
        ExecutionView {
            counter: self.tmp_file_counter,
            state: self.locks[operation.dest].state,
            stage: operation.stage,
            failure: operation.failure,
        }
    }

    /// Whether `operation` was prepared by this store and not released.
    pub open spec fn attached(self, operation: OperationView) -> bool {
        &&& self.locks.contains_key(operation.dest)
        &&& operation.version < self.next_version
        &&& execution_valid(operation.job(self.platform), self.execution(operation))
        &&& if operation.stage == Stage::Idle {
            self.locks[operation.dest].users() < self.locks[operation.dest].refs
        } else {
            self.locks[operation.dest].writing
        }
    }

    /// The store as a step of an execution on the file at `path` left it. The file is in use until
    /// the execution is over.
    pub open spec fn after(
        self,
        path: PathView,
        execution: ExecutionView,
        step: StepView,
    ) -> StoreView {
        StoreView {
            tmp_file_counter: execution.counter,
            locks: self.locks.insert(
                path,
                Lock {
                    writing: !(step is Finished),
                    state: execution.state,
                    ..self.locks[path]
                },
            ),
            ..self
        }
    }

    /// The first step of executing `operation`: it waits while the file is in use.
    pub open spec fn execute(self, operation: OperationView) -> (
        StoreView,
        OperationView,
        StepView,
    ) {
        if self.locks[operation.dest].busy() {
            (self, operation, StepView::Wait)
        } else {
            let (execution, step) = begin(
                operation.job(self.platform),
                self.execution(operation),
            );
            (self.after(operation.dest, execution, step), operation.after(execution), step)
        }
    }

    /// The step of executing `operation` after an action.
    pub open spec fn resume(self, operation: OperationView, outcome: OutcomeView) -> (
        StoreView,
        OperationView,
        StepView,
    ) {
        let (execution, step) = resume(
            operation.job(self.platform),
            self.execution(operation),
            outcome,
        );
        (self.after(operation.dest, execution, step), operation.after(execution), step)
    }
}

impl View for FilesystemStore {
    type V = StoreView;

    closed spec fn view(&self) -> StoreView {
        StoreView {
            data_dir: self.data_dir,
            platform: self.platform,
            tmp_file_counter: self.tmp_file_counter,
            next_version: self.next_version,
            locks: self.locks@,
        }
    }
}

/// What a prepared operation with the given change holds.
pub(crate) open(crate) spec fn operation_view(
    operation: PreparedFilesystemStoreOperation,
    mutation: MutationView,
) -> OperationView {
    OperationView {
        dest: operation.dest_file_path@,
        version: operation.version,
        mutation,
        stage: operation.stage,
        failure: failure_view(operation.failure),
    }
}

/// A store stays valid where nothing but the lock of the file at `path` changes, which stays valid
/// or is gone.
pub proof fn lemma_one_lock_changed(before: StoreView, after: StoreView, path: PathView)
    requires
        before.valid(),
        after.platform == before.platform,
        after.next_version >= before.next_version,
        after.locks.remove(path) == before.locks.remove(path),
        after.locks.contains_key(path) ==> after.lock_valid(path, after.locks[path]),
    ensures
        after.valid(),
{
    assert forall|p: PathView| #[trigger] after.locks.contains_key(p) implies after.lock_valid(
        p,
        after.locks[p],
    ) by {
        if p != path {
            assert(after.locks.remove(path).contains_key(p));
            assert(before.locks.remove(path).contains_key(p));
            assert(after.locks[p] == after.locks.remove(path)[p]);
            assert(before.lock_valid(p, before.locks[p]));
        }
    }
}

/// The first step keeps the store valid and the operation attached to it.
pub proof fn lemma_execute_valid(store: StoreView, operation: OperationView)
    requires
        store.valid(),
        store.attached(operation),
        operation.stage == Stage::Idle,
    ensures
        store.execute(operation).0.valid(),
        store.execute(operation).0.attached(store.execute(operation).1),
{
    let job = operation.job(store.platform);
    let lock = store.locks[operation.dest];
    lemma_begin_valid(job, store.execution(operation));
    assert(store.lock_valid(operation.dest, lock));
    if !lock.busy() {
        let (execution, step) = begin(job, store.execution(operation));
        let after = store.after(operation.dest, execution, step);
        assert(after.locks.remove(operation.dest) =~= store.locks.remove(operation.dest));
        lemma_one_lock_changed(store, after, operation.dest);
    }
}

/// Every further step keeps the store valid and the operation attached to it.
pub proof fn lemma_resume_attached(
    store: StoreView,
    operation: OperationView,
    outcome: OutcomeView,
)
    requires
        store.valid(),
        store.attached(operation),
        operation.stage != Stage::Idle,
    ensures
        store.resume(operation, outcome).0.valid(),
        store.resume(operation, outcome).0.attached(store.resume(operation, outcome).1),
{
    let job = operation.job(store.platform);
    let lock = store.locks[operation.dest];
    lemma_resume_valid(job, store.execution(operation), outcome);
    assert(store.lock_valid(operation.dest, lock));
    let (execution, step) = resume(job, store.execution(operation), outcome);
    let after = store.after(operation.dest, execution, step);
    assert(after.locks.remove(operation.dest) =~= store.locks.remove(operation.dest));
    lemma_one_lock_changed(store, after, operation.dest);
}

impl FilesystemStore {
    /// Whether no file occurs twice in the table of files.
    pub closed spec fn well_formed(self) -> bool {
        self.locks.well_formed()
    }

    /// What holds of the store at all times.
    pub open spec fn valid(self) -> bool {
        self.well_formed() && self@.valid()
    }

    /// Constructs a store over the files below `data_dir`.
    pub fn new(data_dir: PathBuf, platform: Platform) -> (store: FilesystemStore)
        ensures
            store.valid(),
            store@ == StoreView::empty(data_dir, platform, 1),
    {
        FilesystemStore::with_next_version(data_dir, platform, 1)
    }

    /// Constructs a store whose first operation gets the version `next_version`.
    pub fn with_next_version(data_dir: PathBuf, platform: Platform, next_version: u64) -> (store:
        FilesystemStore)
        ensures
            store.valid(),
            store@ == StoreView::empty(data_dir, platform, next_version),
    {
        FilesystemStore {
            data_dir,
            platform,
            tmp_file_counter: 0,
            next_version,
            locks: LockTable::new(),
        }
    }

    /// Returns the data directory.
    pub fn get_data_dir(&self) -> (data_dir: PathBuf)
        ensures
            data_dir == self@.data_dir,
    {
        self.data_dir.clone()
    }

    /// The version that the next operation gets.
    pub fn next_version(&self) -> (version: u64)
        ensures
            version == self@.next_version,
    {
        self.next_version
    }

    /// Returns the number of files that operations refer to or that hold a change that is not
    /// durable yet.
    pub fn state_size(&self) -> (size: usize)
        requires
            self.valid(),
        ensures
            self@.locks.dom().finite(),
            size == self@.locks.dom().len(),
    {
        self.locks.len()
    }

    /// The path of a key's file, or of a namespace's directory where no key is given, after a
    /// check of the names.
    pub fn get_checked_dest_file_path(
        primary_namespace: &str,
        secondary_namespace: &str,
        key: Option<&str>,
        operation: &str,
    ) -> (result: Result<StorePath, StoreError>)
        ensures
            match namespace_fault(primary_namespace@, secondary_namespace@, key_view(key)) {
                None => result is Ok && result->Ok_0@ == dest_path(
                    primary_namespace@,
                    secondary_namespace@,
                    key_view(key),
                ),
                Some(fault) => result is Err && result->Err_0@ == fault_error(
                    primary_namespace@,
                    secondary_namespace@,
                    key_view(key),
                    operation@,
                    fault,
                ),
            },
    {
        match check_namespace_key_validity(primary_namespace, secondary_namespace, key, operation) {
            Err(error) => Err(error),
            Ok(()) => {
                let mut dest_file_path = get_dest_dir_path(primary_namespace, secondary_namespace);
                if let Some(key) = key {
                    dest_file_path.push_text(key);
                }
                assert(dest_file_path@ =~= dest_path(
                    primary_namespace@,
                    secondary_namespace@,
                    key_view(key),
                ));
                Ok(dest_file_path)
            },
        }
    }

    /// Whether one more operation on a key, or one more read of it, can be prepared. Only as many
    /// can exist at a time as the machine can count.
    pub fn can_prepare(
        &self,
        primary_namespace: &str,
        secondary_namespace: &str,
        key: &str,
    ) -> (possible: bool)
        requires
            self.valid(),
        ensures
            possible == self@.has_room(
                dest_path(primary_namespace@, secondary_namespace@, Some(key@)),
            ),
    {
        let mut path = get_dest_dir_path(primary_namespace, secondary_namespace);
        path.push_text(key);
        assert(path@ =~= dest_path(primary_namespace@, secondary_namespace@, Some(key@)));
        match self.locks.get(&path) {
            Some(lock) => lock.refs < usize::MAX,
            None => true,
        }
    }

    /// Reserves a version and a reference to the file, or does nothing if there are no versions
    /// left.
    pub(crate) fn prepare_operation(&mut self, dest_file_path: StorePath) -> (operation: Option<
        PreparedFilesystemStoreOperation,
    >)
        requires
            old(self).valid(),
            old(self)@.has_room(dest_file_path@),
            dest_file_path@.len() > 0,
        ensures
            final(self).valid(),
            match operation {
                Some(operation) => {
                    &&& old(self)@.next_version < u64::MAX
                    &&& final(self)@ == old(self)@.prepared(dest_file_path@)
                    &&& operation.dest_file_path@ == dest_file_path@
                    &&& operation.version == old(self)@.next_version
                    &&& operation.stage == Stage::Idle
                    &&& operation.failure is None
                    &&& forall|mutation: MutationView|
                        final(self)@.attached(#[trigger] operation_view(operation, mutation))
                },
                None => old(self)@.next_version == u64::MAX && final(self)@ == old(self)@,
            },
    {
        if self.next_version == u64::MAX {
            return None;
        }
        let version: u64 = self.next_version;
        self.refer_to_path(&dest_file_path);
        self.next_version = version + 1;
        proof {
            let path = dest_file_path@;
            assert(self@ == old(self)@.prepared(path));
            if old(self)@.locks.contains_key(path) {
                assert(old(self)@.lock_valid(path, old(self)@.locks[path]));
            }
            assert(self@.locks.remove(path) =~= old(self)@.locks.remove(path));
            lemma_one_lock_changed(old(self)@, self@, path);
        }
        Some(
            PreparedFilesystemStoreOperation {
                dest_file_path,
                version,
                stage: Stage::Idle,
                failure: None,
            },
        )
    }

    /// Takes the first step of executing a prepared operation.
    pub(crate) fn execute_operation(
        &mut self,
        operation: &mut PreparedFilesystemStoreOperation,
        mutation: Mutation<'_>,
    ) -> (step: ExecuteStep)
        requires
            old(self).valid(),
            old(self)@.attached(operation_view(*old(operation), mutation@)),
            old(operation).stage == Stage::Idle,
        ensures
            final(self).valid(),
            final(self)@.attached(operation_view(*final(operation), mutation@)),
            (final(self)@, operation_view(*final(operation), mutation@), step@) == old(
                self,
            )@.execute(operation_view(*old(operation), mutation@)),
    {
        let ghost before = operation_view(*operation, mutation@);
        proof {
            lemma_execute_valid(self@, before);
            assert(self@.lock_valid(before.dest, self@.locks[before.dest]));
            lemma_begin_valid(before.job(self@.platform), self@.execution(before));
        }
        let lock: Lock = self.locks.get(&operation.dest_file_path).unwrap();
        if lock.writing || lock.readers > 0 {
            return ExecuteStep::Wait;
        }
        let mut state = lock.state;
        let step = operation.begin(
            mutation,
            Ghost(self.platform),
            Ghost(self.tmp_file_counter),
            &mut state,
        );
        let finished: bool = matches!(step, ExecuteStep::Finished(_));
        self.locks.set(&operation.dest_file_path, Lock { writing: !finished, state, ..lock });
        proof {
            let (execution, step_view) = begin(
                before.job(self@.platform),
                old(self)@.execution(before),
            );
            assert(self@.locks =~= old(self)@.after(before.dest, execution, step_view).locks);
        }
        step
    }

    /// Takes the step of executing a prepared operation after an action.
    pub(crate) fn resume_operation(
        &mut self,
        operation: &mut PreparedFilesystemStoreOperation,
        mutation: Mutation<'_>,
        outcome: IoOutcome,
    ) -> (step: ExecuteStep)
        requires
            old(self).valid(),
            old(self)@.attached(operation_view(*old(operation), mutation@)),
            old(operation).stage != Stage::Idle,
        ensures
            final(self).valid(),
            final(self)@.attached(operation_view(*final(operation), mutation@)),
            (final(self)@, operation_view(*final(operation), mutation@), step@) == old(
                self,
            )@.resume(operation_view(*old(operation), mutation@), outcome@),
    {
        let ghost before = operation_view(*operation, mutation@);
        proof {
            lemma_resume_attached(self@, before, outcome@);
        }
        let lock: Lock = self.locks.get(&operation.dest_file_path).unwrap();
        let mut state = lock.state;
        let mut counter: usize = self.tmp_file_counter;
        let step = operation.resume(mutation, self.platform, &mut counter, &mut state, outcome);
        self.tmp_file_counter = counter;
        let finished: bool = matches!(step, ExecuteStep::Finished(_));
        self.locks.set(&operation.dest_file_path, Lock { writing: !finished, state, ..lock });
        proof {
            let (execution, step_view) = resume(
                before.job(self@.platform),
                old(self)@.execution(before),
                outcome@,
            );
            assert(self@.locks =~= old(self)@.after(before.dest, execution, step_view).locks);
        }
        step
    }

    /// Decides what a listing does with the trash file at `path`.
    pub(crate) fn trash_fate(&self, path: &StorePath) -> (fate: EntryFate)
        requires
            self.valid(),
        ensures
            fate == if self@.platform == Platform::Unix || pending_trash(self@.locks, path@) {
                EntryFate::Skip
            } else if any_writing(self@.locks) {
                EntryFate::Wait
            } else {
                EntryFate::Discard
            },
    {
        proof {
            assert forall|p: PathView| #[trigger] self.locks@.contains_key(p) implies p.len() > 0 by {
                assert(self@.locks.contains_key(p));
                assert(self@.lock_valid(p, self@.locks[p]));
            }
        }
        if self.platform == Platform::Unix || self.locks.holds_trash(path) {
            EntryFate::Skip
        } else if self.locks.any_writing() {
            EntryFate::Wait
        } else {
            EntryFate::Discard
        }
    }

    /// Begins to refer to the file at `path`.
    pub(crate) fn refer_to_path(&mut self, path: &StorePath)
        requires
            old(self).valid(),
            old(self)@.has_room(path@),
            path@.len() > 0,
        ensures
            final(self).valid(),
            final(self)@ == old(self)@.referring(path@),
    {
        self.locks.get_inner_lock_ref(path);
        proof {
            assert(self@ == old(self)@.referring(path@));
            if old(self)@.locks.contains_key(path@) {
                assert(old(self)@.lock_valid(path@, old(self)@.locks[path@]));
            }
            assert(self@.locks.remove(path@) =~= old(self)@.locks.remove(path@));
            lemma_one_lock_changed(old(self)@, self@, path@);
        }
    }

    /// Adds a reader of the file at `path`, unless the file is being changed.
    pub(crate) fn begin_reading(&mut self, path: &StorePath) -> (begun: bool)
        requires
            old(self).valid(),
            old(self)@.locks.contains_key(path@),
            old(self)@.locks[path@].users() < old(self)@.locks[path@].refs,
        ensures
            final(self).valid(),
            begun == !old(self)@.locks[path@].writing,
            final(self)@ == if begun {
                old(self)@.reading(path@)
            } else {
                old(self)@
            },
    {
        let lock: Lock = self.locks.get(path).unwrap();
        if lock.writing {
            return false;
        }
        self.locks.set(path, Lock { readers: lock.readers + 1, ..lock });
        proof {
            assert(old(self)@.lock_valid(path@, lock));
            assert(self@ == old(self)@.reading(path@));
            assert(self@.locks.remove(path@) =~= old(self)@.locks.remove(path@));
            lemma_one_lock_changed(old(self)@, self@, path@);
        }
        true
    }

    /// Takes a reader of the file at `path` away.
    pub(crate) fn end_reading(&mut self, path: &StorePath)
        requires
            old(self).valid(),
            old(self)@.locks.contains_key(path@),
            old(self)@.locks[path@].readers > 0,
        ensures
            final(self).valid(),
            final(self)@ == old(self)@.done_reading(path@),
            final(self)@.locks[path@].users() < final(self)@.locks[path@].refs,
    {
        let lock: Lock = self.locks.get(path).unwrap();
        self.locks.set(path, Lock { readers: lock.readers - 1, ..lock });
        proof {
            assert(old(self)@.lock_valid(path@, lock));
            assert(self@ == old(self)@.done_reading(path@));
            assert(self@.locks.remove(path@) =~= old(self)@.locks.remove(path@));
            lemma_one_lock_changed(old(self)@, self@, path@);
        }
    }

    /// Gives up the reference of an operation that is not being executed.
    pub(crate) fn release_path(&mut self, path: &StorePath)
        requires
            old(self).valid(),
            old(self)@.locks.contains_key(path@),
            old(self)@.locks[path@].users() < old(self)@.locks[path@].refs,
        ensures
            final(self).valid(),
            final(self)@ == old(self)@.released(path@),
    {
        self.locks.clean_lock(path);
        proof {
            assert(old(self)@.lock_valid(path@, old(self)@.locks[path@]));
            assert(self@ == old(self)@.released(path@));
            assert(self@.locks.remove(path@) =~= old(self)@.locks.remove(path@));
            lemma_one_lock_changed(old(self)@, self@, path@);
        }
    }
}

} // verus!
