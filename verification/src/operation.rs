//! The operations that callers prepare, execute and release.

use crate::action::{ExecuteStep, IoOutcome};
use crate::execution::{Mutation, MutationView, PreparedFilesystemStoreOperation, Stage};
use crate::namespace::{fault_error, namespace_fault};
use crate::path::PathView;
use crate::path::dest_path;
use crate::store::{FilesystemStore, OperationView, PrepareError, StoreView};
use crate::store::operation_view;
use vstd::prelude::*;

verus! {

/// A prepared filesystem write that reserves its version when it is created.
///
/// The reserved version becomes the highest-started ordering barrier only when [`Self::execute`]
/// is first called. Calling it again after an I/O error retries the same version. Pending
/// durability work from any newer filesystem mutation is completed first. A newer applied or
/// recovered version supersedes this one without changing the file. If a newer attempt failed
/// before mutating the filesystem, this older write is instead executed because it is still safe
/// to apply.
pub struct FilesystemStoreWriteOperation {
    operation: PreparedFilesystemStoreOperation,
    buf: Vec<u8>,
}

/// A prepared filesystem remove that reserves its version when it is created.
///
/// The reserved version becomes the highest-started ordering barrier only when [`Self::execute`]
/// is first called. Calling it again after an I/O error retries the same version and the same lazy
/// or durable removal mode selected at preparation. Pending durability work from any newer
/// filesystem mutation is completed first. A newer applied or recovered version supersedes this
/// one without changing the file. If a newer attempt failed before mutating the filesystem, this
/// older remove is instead executed because it is still safe to apply.
pub struct FilesystemStoreRemoveOperation {
    operation: PreparedFilesystemStoreOperation,
    lazy: bool,
}

impl View for FilesystemStoreWriteOperation {
    type V = OperationView;

    closed spec fn view(&self) -> OperationView {
        operation_view(self.operation, MutationView::Write(self.buf@))
    }
}

impl View for FilesystemStoreRemoveOperation {
    type V = OperationView;

    closed spec fn view(&self) -> OperationView {
        operation_view(self.operation, MutationView::Remove { lazy: self.lazy })
    }
}

/// The operation that a preparation yields: not executed, with the next version.
pub open spec fn prepared_operation(
    store: StoreView,
    dest: PathView,
    mutation: MutationView,
) -> OperationView {
    OperationView {
        dest,
        version: store.next_version,
        mutation,
        stage: Stage::Idle,
        failure: None,
    }
}

impl FilesystemStoreWriteOperation {
    /// The version that the write reserved.
    pub fn version(&self) -> (version: u64)
        ensures
            version == self@.version,
    {
        self.operation.version
    }

    /// Begins to execute this prepared write once.
    ///
    /// The step says what to do next: wait for another operation on the same file, perform an
    /// action and go on with [`Self::resume`], or nothing more.
    pub fn execute(&mut self, store: &mut FilesystemStore) -> (step: ExecuteStep)
        requires
            old(store).valid(),
            old(store)@.attached(old(self)@),
            old(self)@.stage == Stage::Idle,
        ensures
            final(store).valid(),
            final(store)@.attached(final(self)@),
            (final(store)@, final(self)@, step@) == old(store)@.execute(old(self)@),
    {
        store.execute_operation(&mut self.operation, Mutation::Write(&self.buf))
    }

    /// Goes on with an execution after an action.
    pub fn resume(&mut self, store: &mut FilesystemStore, outcome: IoOutcome) -> (step: ExecuteStep)
        requires
            old(store).valid(),
            old(store)@.attached(old(self)@),
            old(self)@.stage != Stage::Idle,
        ensures
            final(store).valid(),
            final(store)@.attached(final(self)@),
            (final(store)@, final(self)@, step@) == old(store)@.resume(old(self)@, outcome@),
    {
        store.resume_operation(&mut self.operation, Mutation::Write(&self.buf), outcome)
    }

    /// Gives the write up, whether it was executed or not.
    pub fn release(self, store: &mut FilesystemStore)
        requires
            old(store).valid(),
            old(store)@.attached(self@),
            self@.stage == Stage::Idle,
        ensures
            final(store).valid(),
            final(store)@ == old(store)@.released(self@.dest),
    {
        store.release_path(&self.operation.dest_file_path);
    }
}

impl FilesystemStoreRemoveOperation {
    /// The version that the remove reserved.
    pub fn version(&self) -> (version: u64)
        ensures
            version == self@.version,
    {
        self.operation.version
    }

    /// Begins to execute this prepared remove once.
    ///
    /// A durable operation repeats outstanding durability work on retry even if an earlier attempt
    /// already removed the destination file. The step is to be read as that of
    /// [`FilesystemStoreWriteOperation::execute`].
    pub fn execute(&mut self, store: &mut FilesystemStore) -> (step: ExecuteStep)
        requires
            old(store).valid(),
            old(store)@.attached(old(self)@),
            old(self)@.stage == Stage::Idle,
        ensures
            final(store).valid(),
            final(store)@.attached(final(self)@),
            (final(store)@, final(self)@, step@) == old(store)@.execute(old(self)@),
    {
        let lazy: bool = self.lazy;
        store.execute_operation(&mut self.operation, Mutation::Remove { lazy })
    }

    /// Goes on with an execution after an action.
    pub fn resume(&mut self, store: &mut FilesystemStore, outcome: IoOutcome) -> (step: ExecuteStep)
        requires
            old(store).valid(),
            old(store)@.attached(old(self)@),
            old(self)@.stage != Stage::Idle,
        ensures
            final(store).valid(),
            final(store)@.attached(final(self)@),
            (final(store)@, final(self)@, step@) == old(store)@.resume(old(self)@, outcome@),
    {
        let lazy: bool = self.lazy;
        store.resume_operation(&mut self.operation, Mutation::Remove { lazy }, outcome)
    }

    /// Gives the remove up, whether it was executed or not.
    pub fn release(self, store: &mut FilesystemStore)
        requires
            old(store).valid(),
            old(store)@.attached(self@),
            self@.stage == Stage::Idle,
        ensures
            final(store).valid(),
            final(store)@ == old(store)@.released(self@.dest),
    {
        store.release_path(&self.operation.dest_file_path);
    }
}

/// What a preparation comes to: the names are checked, and a version must be left.
pub open spec fn preparation(
    before: StoreView,
    after: StoreView,
    primary_namespace: Seq<char>,
    secondary_namespace: Seq<char>,
    key: Seq<char>,
    name: Seq<char>,
    mutation: MutationView,
    result: Result<OperationView, PrepareError>,
) -> bool {
    let dest = dest_path(primary_namespace, secondary_namespace, Some(key));
    match namespace_fault(primary_namespace, secondary_namespace, Some(key)) {
        Some(fault) => {
            &&& after == before
            &&& result matches Err(PrepareError::Rejected(error)) && error@ == fault_error(
                primary_namespace,
                secondary_namespace,
                Some(key),
                name,
                fault,
            )
        },
        None => if before.next_version == u64::MAX {
            &&& after == before
            &&& result == Err::<OperationView, _>(PrepareError::VersionCounterOverflowed)
        } else {
            &&& after == before.prepared(dest)
            &&& result == Ok::<_, PrepareError>(prepared_operation(before, dest, mutation))
            &&& after.attached(prepared_operation(before, dest, mutation))
        },
    }
}

impl FilesystemStore {
    /// Prepares a write, reserving its version before returning.
    ///
    /// The returned operation can be executed repeatedly to retry transient I/O errors without
    /// allocating a new version. The version becomes the highest-started ordering barrier on the
    /// first call to [`FilesystemStoreWriteOperation::execute`]. The operation must be prepared
    /// when the logical write is issued, rather than when an asynchronous executor first polls it.
    pub fn prepare_write(
        &mut self,
        primary_namespace: &str,
        secondary_namespace: &str,
        key: &str,
        buf: Vec<u8>,
    ) -> (result: Result<FilesystemStoreWriteOperation, PrepareError>)
        requires
            old(self).valid(),
            old(self)@.has_room(dest_path(primary_namespace@, secondary_namespace@, Some(key@))),
        ensures
            final(self).valid(),
            preparation(
                old(self)@,
                final(self)@,
                primary_namespace@,
                secondary_namespace@,
                key@,
                "write"@,
                MutationView::Write(buf@),
                match result {
                    Ok(operation) => Ok(operation@),
                    Err(error) => Err(error),
                },
            ),
    {
        match FilesystemStore::get_checked_dest_file_path(
            primary_namespace,
            secondary_namespace,
            Some(key),
            "write",
        ) {
            Err(error) => Err(PrepareError::Rejected(error)),
            Ok(dest_file_path) => match self.prepare_operation(dest_file_path) {
                Some(operation) => Ok(FilesystemStoreWriteOperation { operation, buf }),
                None => Err(PrepareError::VersionCounterOverflowed),
            },
        }
    }

    /// Prepares a remove, reserving its version and removal mode before returning.
    ///
    /// The returned operation can be executed repeatedly to retry transient I/O errors without
    /// allocating a new version or changing the lazy/durable mode. The version becomes the
    /// highest-started ordering barrier on the first call to
    /// [`FilesystemStoreRemoveOperation::execute`]. The operation must be prepared when the logical
    /// remove is issued, rather than when an asynchronous executor first polls it.
    pub fn prepare_remove(
        &mut self,
        primary_namespace: &str,
        secondary_namespace: &str,
        key: &str,
        lazy: bool,
    ) -> (result: Result<FilesystemStoreRemoveOperation, PrepareError>)
        requires
            old(self).valid(),
            old(self)@.has_room(dest_path(primary_namespace@, secondary_namespace@, Some(key@))),
        ensures
            final(self).valid(),
            preparation(
                old(self)@,
                final(self)@,
                primary_namespace@,
                secondary_namespace@,
                key@,
                "remove"@,
                MutationView::Remove { lazy },
                match result {
                    Ok(operation) => Ok(operation@),
                    Err(error) => Err(error),
                },
            ),
    {
        match FilesystemStore::get_checked_dest_file_path(
            primary_namespace,
            secondary_namespace,
            Some(key),
            "remove",
        ) {
            Err(error) => Err(PrepareError::Rejected(error)),
            Ok(dest_file_path) => match self.prepare_operation(dest_file_path) {
                Some(operation) => Ok(FilesystemStoreRemoveOperation { operation, lazy }),
                None => Err(PrepareError::VersionCounterOverflowed),
            },
        }
    }
}

} // verus!
