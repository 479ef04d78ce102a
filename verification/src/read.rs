//! Reading a key's file.

use crate::error::StoreError;
use crate::locks::Lock;
use crate::namespace::{fault_error, namespace_fault};
use crate::path::{PathView, StorePath};
use crate::path::dest_path;
use crate::store::{FilesystemStore, StoreView};
use vstd::prelude::*;

verus! {

/// A read of a key's file, which waits while the file is changed and keeps it from being changed.
pub struct FilesystemStoreReadOperation {
    path: StorePath,
    reading: bool,
}

/// What a [`FilesystemStoreReadOperation`] holds.
pub struct ReadView {
    pub path: PathView,
    pub reading: bool,
}

/// What a read comes to next.
#[derive(Debug)]
pub enum ReadStep {
    /// The file is being changed. Try again once that is over.
    Wait,
    /// Read the whole file at this path, and finish the read with what came of it.
    ReadFile(StorePath),
}

impl View for FilesystemStoreReadOperation {
    type V = ReadView;

    closed spec fn view(&self) -> ReadView {
        ReadView { path: self.path@, reading: self.reading }
    }
}

impl StoreView {
    /// Whether `read` was prepared by this store and not finished.
    pub open spec fn attached_read(self, read: ReadView) -> bool {
        &&& self.locks.contains_key(read.path)
        &&& if read.reading {
            self.locks[read.path].readers > 0
        } else {
            self.locks[read.path].users() < self.locks[read.path].refs
        }
    }

    /// The store with one more reader of the file at `path`.
    pub open spec fn reading(self, path: PathView) -> StoreView {
        StoreView {
            locks: self.locks.insert(
                path,
                Lock { readers: (self.locks[path].readers + 1) as usize, ..self.locks[path] },
            ),
            ..self
        }
    }

    /// The store with one reader less of the file at `path`.
    pub open spec fn done_reading(self, path: PathView) -> StoreView {
        StoreView {
            locks: self.locks.insert(
                path,
                Lock { readers: (self.locks[path].readers - 1) as usize, ..self.locks[path] },
            ),
            ..self
        }
    }
}

impl FilesystemStore {
    /// Prepares a read.
    pub fn prepare_read(
        &mut self,
        primary_namespace: &str,
        secondary_namespace: &str,
        key: &str,
    ) -> (result: Result<FilesystemStoreReadOperation, StoreError>)
        requires
            old(self).valid(),
            old(self)@.has_room(dest_path(primary_namespace@, secondary_namespace@, Some(key@))),
        ensures
            final(self).valid(),
            match namespace_fault(primary_namespace@, secondary_namespace@, Some(key@)) {
                Some(fault) => {
                    &&& final(self)@ == old(self)@
                    &&& result is Err
                    &&& result->Err_0@ == fault_error(
                        primary_namespace@,
                        secondary_namespace@,
                        Some(key@),
                        "read"@,
                        fault,
                    )
                },
                None => {
                    let path = dest_path(primary_namespace@, secondary_namespace@, Some(key@));
                    &&& final(self)@ == old(self)@.referring(path)
                    &&& result is Ok
                    &&& result->Ok_0@ == (ReadView { path, reading: false })
                    &&& final(self)@.attached_read(result->Ok_0@)
                },
            },
    {
        match FilesystemStore::get_checked_dest_file_path(
            primary_namespace,
            secondary_namespace,
            Some(key),
            "read",
        ) {
            Err(error) => Err(error),
            Ok(path) => {
                self.refer_to_path(&path);
                proof {
                    assert(self@.lock_valid(path@, self@.locks[path@]));
                    if old(self)@.locks.contains_key(path@) {
                        assert(old(self)@.lock_valid(path@, old(self)@.locks[path@]));
                    }
                }
                Ok(FilesystemStoreReadOperation { path, reading: false })
            },
        }
    }
}

impl FilesystemStoreReadOperation {
    /// Begins to read the file, unless it is being changed.
    pub fn execute(&mut self, store: &mut FilesystemStore) -> (step: ReadStep)
        requires
            old(store).valid(),
            old(store)@.attached_read(old(self)@),
            !old(self)@.reading,
        ensures
            final(store).valid(),
            final(store)@.attached_read(final(self)@),
            final(self)@.path == old(self)@.path,
            if old(store)@.locks[old(self)@.path].writing {
                &&& step is Wait
                &&& !final(self)@.reading
                &&& final(store)@ == old(store)@
            } else {
                &&& step is ReadFile
                &&& step->0@ == old(self)@.path
                &&& final(self)@.reading
                &&& final(store)@ == old(store)@.reading(old(self)@.path)
            },
    {
        if store.begin_reading(&self.path) {
            self.reading = true;
            ReadStep::ReadFile(self.path.duplicate())
        } else {
            ReadStep::Wait
        }
    }

    /// Gives up a read that has not begun.
    pub fn release(self, store: &mut FilesystemStore)
        requires
            old(store).valid(),
            old(store)@.attached_read(self@),
            !self@.reading,
        ensures
            final(store).valid(),
            final(store)@ == old(store)@.released(self@.path),
    {
        store.release_path(&self.path);
    }

    /// Ends the read with what came of reading the file.
    pub fn finish(
        self,
        store: &mut FilesystemStore,
        contents: Result<Vec<u8>, StoreError>,
    ) -> (result: Result<Vec<u8>, StoreError>)
        requires
            old(store).valid(),
            old(store)@.attached_read(self@),
            self@.reading,
        ensures
            final(store).valid(),
            final(store)@ == old(store)@.done_reading(self@.path).released(self@.path),
            result == contents,
    {
        store.end_reading(&self.path);
        store.release_path(&self.path);
        contents
    }
}

} // verus!
