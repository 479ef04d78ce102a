//! What the store remembers of the operations on one file.

use vstd::prelude::*;

verus! {

/// The family of systems that the files live on. They differ in how a change is made durable.
#[derive(Clone, Copy, Debug, PartialEq, Eq, Structural)]
pub enum Platform {
    /// A change is durable once the directory that holds the file is synced.
    Unix,
    /// A change is durable once the file itself is synced. A file to be removed is moved to a
    /// trash file first, and it is the trash file that is synced.
    Windows,
}

/// How far the latest operation on a file has come.
#[derive(Clone, Copy, Debug, PartialEq, Eq, Structural)]
pub enum FilesystemStoreOperationAttemptStatus {
    Started,
    Applied,
    Failed,
}

/// The operation with the highest version that was started on a file.
#[derive(Clone, Copy, Debug, PartialEq, Eq, Structural)]
pub struct FilesystemStoreOperationAttempt {
    pub version: u64,
    pub status: FilesystemStoreOperationAttemptStatus,
}

/// The outcome of executing a prepared filesystem store operation.
#[derive(Clone, Copy, Debug, PartialEq, Eq, Structural)]
pub enum FilesystemStoreOperationStatus {
    /// The operation was applied to the filesystem.
    Applied,
    /// A newer operation for the same key was successfully applied, so this operation was skipped.
    Superseded,
}

/// A change that was made to a file and is not durable yet.
#[derive(Clone, Copy, Debug, PartialEq, Eq, Structural)]
pub enum PendingDurability {
    /// The directory that holds the file must be synced.
    Directory { version: u64 },
    /// The file itself must be synced or, where a number is given, the trash file that carries
    /// the number, which is deleted afterwards.
    File { version: u64, trash: Option<usize> },
}

/// What the store remembers of the operations on one file.
#[derive(Clone, Copy, Debug, PartialEq, Eq, Structural)]
pub struct FilesystemStoreOperationState {
    pub latest_operation: Option<FilesystemStoreOperationAttempt>,
    pub latest_applied_version: Option<u64>,
    pub pending_durability: Option<PendingDurability>,
}

/// How an operation stands towards those that came before it.
#[derive(Clone, Copy, Debug, PartialEq, Eq, Structural)]
pub enum Admission {
    /// A newer operation is applied.
    Superseded,
    /// This very operation is applied.
    AlreadyApplied,
    /// A newer operation is under way.
    Blocked,
    /// The operation may change the file.
    Proceed,
}

impl PendingDurability {
    /// The version of the operation that made the change.
    pub open spec fn spec_version(self) -> u64 {
        match self {
            PendingDurability::Directory { version } => version,
            PendingDurability::File { version, .. } => version,
        }
    }

    /// The version of the operation that made the change.
    #[verifier::when_used_as_spec(spec_version)]
    pub fn version(self) -> (version: u64)
        ensures
            version == self.spec_version(),
    {
        match self {
            PendingDurability::Directory { version } => version,
            PendingDurability::File { version, .. } => version,
        }
    }

    /// The trash file to delete once the change is durable.
    pub open spec fn trash(self) -> Option<usize> {
        match self {
            PendingDurability::Directory { .. } => None,
            PendingDurability::File { trash, .. } => trash,
        }
    }

    /// Whether a change is made durable in this way on `platform`.
    pub open spec fn fits(self, platform: Platform) -> bool {
        match platform {
            Platform::Unix => self is Directory,
            Platform::Windows => self is File,
        }
    }
}

impl FilesystemStoreOperationState {
    /// The state of a file on which no operation was started.
    pub open spec fn empty() -> FilesystemStoreOperationState {
        FilesystemStoreOperationState {
            latest_operation: None,
            latest_applied_version: None,
            pending_durability: None,
        }
    }

    /// The version of the operation that changed the file last.
    pub open spec fn last_change(self) -> Option<u64> {
        match self.pending_durability {
            Some(pending) => Some(pending.spec_version()),
            None => self.latest_applied_version,
        }
    }

    /// What holds of the state at all times:
    /// - no version is applied or pending that is newer than the latest started one;
    /// - the latest started operation counts as applied exactly if its version is the applied one;
    /// - a pending change is newer than every applied one.
    pub open spec fn valid(self) -> bool {
        &&& self.latest_applied_version matches Some(applied) ==> {
            &&& self.latest_operation is Some
            &&& applied <= self.latest_operation->0.version
        }
        &&& self.latest_operation matches Some(latest) ==> {
            latest.status == FilesystemStoreOperationAttemptStatus::Applied
                <==> self.latest_applied_version == Some(latest.version)
        }
        &&& self.pending_durability matches Some(pending) ==> {
            &&& self.latest_operation is Some
            &&& pending.spec_version() <= self.latest_operation->0.version
            &&& self.latest_applied_version matches Some(applied) ==> applied
                < pending.spec_version()
        }
    }

    /// How an operation with `version` stands towards the others.
    pub open spec fn admission(self, version: u64) -> Admission {
        if self.latest_applied_version is Some && self.latest_applied_version->0 > version {
            Admission::Superseded
        } else if self.latest_applied_version == Some(version) {
            Admission::AlreadyApplied
        } else if self.latest_operation is Some && self.latest_operation->0.version > version
            && self.latest_operation->0.status == FilesystemStoreOperationAttemptStatus::Started {
            Admission::Blocked
        } else {
            Admission::Proceed
        }
    }

    /// The state with `version` started, unless a newer one was.
    pub open spec fn started(self, version: u64) -> FilesystemStoreOperationState {
        if self.latest_operation is Some && self.latest_operation->0.version > version {
            self
        } else {
            FilesystemStoreOperationState {
                latest_operation: Some(
                    FilesystemStoreOperationAttempt {
                        version,
                        status: FilesystemStoreOperationAttemptStatus::Started,
                    },
                ),
                ..self
            }
        }
    }

    /// The state with the latest operation's status set, if that operation is `version`.
    pub open spec fn with_status(
        self,
        version: u64,
        status: FilesystemStoreOperationAttemptStatus,
    ) -> FilesystemStoreOperationState {
        if self.latest_operation is Some && self.latest_operation->0.version == version {
            FilesystemStoreOperationState {
                latest_operation: Some(FilesystemStoreOperationAttempt { version, status }),
                ..self
            }
        } else {
            self
        }
    }

    /// The state with `version` applied.
    pub open spec fn applied(self, version: u64) -> FilesystemStoreOperationState {
        FilesystemStoreOperationState {
            latest_applied_version: match self.latest_applied_version {
                Some(applied) => if applied > version {
                    Some(applied)
                } else {
                    Some(version)
                },
                None => Some(version),
            },
            ..self.with_status(version, FilesystemStoreOperationAttemptStatus::Applied)
        }
    }

    /// The state with `version` failed.
    pub open spec fn failed(self, version: u64) -> FilesystemStoreOperationState {
        self.with_status(version, FilesystemStoreOperationAttemptStatus::Failed)
    }

    /// The state with a change that waits to be made durable.
    pub open spec fn pending(self, pending: PendingDurability) -> FilesystemStoreOperationState {
        FilesystemStoreOperationState { pending_durability: Some(pending), ..self }
    }

    /// The state after the pending change became durable.
    pub open spec fn durable(self) -> FilesystemStoreOperationState {
        match self.pending_durability {
            Some(pending) => FilesystemStoreOperationState {
                pending_durability: None,
                ..self.applied(pending.spec_version())
            },
            None => self,
        }
    }

    /// The state of a file on which no operation was started.
    pub fn new() -> (state: FilesystemStoreOperationState)
        ensures
            state == FilesystemStoreOperationState::empty(),
            state.valid(),
    {
        FilesystemStoreOperationState {
            latest_operation: None,
            latest_applied_version: None,
            pending_durability: None,
        }
    }

    /// Whether a change waits to be made durable.
    pub fn has_pending_durability_work(&self) -> (pending: bool)
        ensures
            pending == (self.pending_durability is Some),
    {
        self.pending_durability.is_some()
    }

    /// Records that `version` is applied.
    pub fn mark_version_applied(&mut self, version: u64)
        ensures
            *final(self) == old(self).applied(version),
    {
        self.latest_applied_version = match self.latest_applied_version {
            Some(applied) => if applied > version {
                Some(applied)
            } else {
                Some(version)
            },
            None => Some(version),
        };
        self.set_status(version, FilesystemStoreOperationAttemptStatus::Applied);
    }

    /// Sets the latest operation's status, if that operation is `version`.
    fn set_status(&mut self, version: u64, status: FilesystemStoreOperationAttemptStatus)
        ensures
            *final(self) == old(self).with_status(version, status),
    {
        if let Some(latest) = self.latest_operation {
            if latest.version == version {
                self.latest_operation = Some(FilesystemStoreOperationAttempt { version, status });
            }
        }
    }

    /// Records that an attempt of `version` failed.
    pub(crate) fn mark_version_failed(&mut self, version: u64)
        ensures
            *final(self) == old(self).failed(version),
    {
        self.set_status(version, FilesystemStoreOperationAttemptStatus::Failed);
    }

    /// Claims `version` for an operation that is about to change the file, unless a newer version
    /// was claimed before.
    pub(crate) fn claim_version(&mut self, version: u64)
        ensures
            *final(self) == old(self).started(version),
    {
        let is_latest_operation: bool = match self.latest_operation {
            Some(latest) => version >= latest.version,
            None => true,
        };
        if is_latest_operation {
            self.latest_operation = Some(
                FilesystemStoreOperationAttempt {
                    version,
                    status: FilesystemStoreOperationAttemptStatus::Started,
                },
            );
        }
    }

    /// Records that the pending change is durable.
    pub(crate) fn complete_pending(&mut self)
        ensures
            *final(self) == old(self).durable(),
    {
        if let Some(pending) = self.pending_durability {
            self.pending_durability = None;
            self.mark_version_applied(pending.version());
        }
    }

    /// Decides whether an operation with `version` may change the file.
    ///
    /// A failure that left nothing pending happened before the file was changed, so an operation
    /// older than the failed one may still be applied.
    pub fn judge(&self, version: u64) -> (admission: Admission)
        requires
            self.valid(),
        ensures
            admission == self.admission(version),
    {
        if let Some(latest_applied_version) = self.latest_applied_version {
            if version < latest_applied_version {
                return Admission::Superseded;
            }
            if version == latest_applied_version {
                return Admission::AlreadyApplied;
            }
        }
        if let Some(latest_operation) = self.latest_operation {
            if version < latest_operation.version {
                match latest_operation.status {
                    FilesystemStoreOperationAttemptStatus::Applied => {
                        return Admission::Superseded;
                    },
                    FilesystemStoreOperationAttemptStatus::Started => {
                        return Admission::Blocked;
                    },
                    FilesystemStoreOperationAttemptStatus::Failed => {},
                }
            }
            if version == latest_operation.version && latest_operation.status
                == FilesystemStoreOperationAttemptStatus::Applied {
                return Admission::AlreadyApplied;
            }
        }
        Admission::Proceed
    }
}

} // verus!
