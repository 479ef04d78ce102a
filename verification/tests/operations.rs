//! Operations on a disk that is kept in memory.

use filesystem_store::action::{ExecuteStep, FilesystemAction, IoOutcome};
use filesystem_store::error::{ErrorKind, StoreError};
use filesystem_store::operation::{FilesystemStoreRemoveOperation, FilesystemStoreWriteOperation};
use filesystem_store::path::StorePath;
use filesystem_store::read::ReadStep;
use filesystem_store::state::{FilesystemStoreOperationStatus, Platform};
use filesystem_store::store::{FilesystemStore, PrepareError};
use std::collections::{BTreeMap, BTreeSet};
use std::path::PathBuf;

/// A disk: the files and the directories below the data directory, by their paths.
struct Disk {
    files: BTreeMap<String, Vec<u8>>,
    dirs: BTreeSet<String>,
    /// Actions that fail, by the name that the log gives them.
    broken: Vec<&'static str>,
    log: Vec<String>,
}

fn text(path: &StorePath) -> String {
    let mut parts = Vec::new();
    for i in 0..path.len() {
        parts.push(String::from_utf8(path.component(i).clone()).unwrap());
    }
    parts.join("/")
}

fn parent(path: &str) -> String {
    match path.rfind('/') {
        Some(i) => path[..i].to_string(),
        None => String::new(),
    }
}

fn failure(kind: ErrorKind, message: &str) -> IoOutcome {
    IoOutcome::Failed(StoreError::new(kind, message.to_string()))
}

impl Disk {
    fn new() -> Disk {
        let mut dirs = BTreeSet::new();
        dirs.insert(String::new());
        Disk { files: BTreeMap::new(), dirs, broken: Vec::new(), log: Vec::new() }
    }

    fn make_dirs(&mut self, path: &str) {
        let mut at = String::new();
        for part in path.split('/') {
            if !at.is_empty() {
                at.push('/');
            }
            at.push_str(part);
            self.dirs.insert(at.clone());
        }
    }

    fn file(&self, path: &str) -> Option<&[u8]> {
        self.files.get(path).map(|contents| contents.as_slice())
    }

    fn has_artifacts(&self) -> bool {
        self.files.keys().any(|path| path.ends_with(".tmp") || path.ends_with(".trash"))
    }

    fn rename(&mut self, from: &str, to: &str) -> IoOutcome {
        if self.dirs.contains(to) {
            return failure(ErrorKind::Other, "is a directory");
        }
        match self.files.remove(from) {
            Some(contents) => {
                self.files.insert(to.to_string(), contents);
                IoOutcome::Completed
            },
            None => failure(ErrorKind::NotFound, "no such file"),
        }
    }

    /// Moves a directory with everything in it.
    fn rename_dir(&mut self, from: &str, to: &str) {
        let moved = |path: &String| match path.strip_prefix(from) {
            Some(rest) if rest.is_empty() || rest.starts_with('/') => format!("{}{}", to, rest),
            _ => path.clone(),
        };
        self.dirs = self.dirs.iter().map(moved).collect();
        self.files = self.files.iter().map(|(path, c)| (moved(path), c.clone())).collect();
    }

    fn perform(&mut self, action: FilesystemAction) -> IoOutcome {
        let (name, path) = match &action {
            FilesystemAction::CreateDirAll { path } => ("mkdir", text(path)),
            FilesystemAction::WriteFile { path, .. } => ("write", text(path)),
            FilesystemAction::Rename { from, to } => ("rename", text(from) + " " + &text(to)),
            FilesystemAction::ReplaceFile { from, to } => ("replace", text(from) + " " + &text(to)),
            FilesystemAction::MoveFile { from, to } => ("move", text(from) + " " + &text(to)),
            FilesystemAction::RemoveFile { path } => ("remove", text(path)),
            FilesystemAction::SyncDirectory { path } => ("sync_dir", text(path)),
            FilesystemAction::SyncFile { path } => ("sync_file", text(path)),
            FilesystemAction::Exists { path } => ("exists", text(path)),
            FilesystemAction::IsFile { path } => ("is_file", text(path)),
        };
        self.log.push(format!("{} {}", name, path));
        if self.broken.contains(&name) {
            return failure(ErrorKind::PermissionDenied, name);
        }
        match action {
            FilesystemAction::CreateDirAll { .. } => {
                self.make_dirs(&path);
                IoOutcome::Completed
            },
            FilesystemAction::WriteFile { contents, .. } => {
                if !self.dirs.contains(&parent(&path)) {
                    return failure(ErrorKind::NotFound, "no such directory");
                }
                self.files.insert(path, contents);
                IoOutcome::Completed
            },
            FilesystemAction::Rename { from, to } => self.rename(&text(&from), &text(&to)),
            FilesystemAction::ReplaceFile { from, to } => {
                assert!(self.files.contains_key(&text(&to)) || self.dirs.contains(&text(&to)));
                self.rename(&text(&from), &text(&to))
            },
            FilesystemAction::MoveFile { from, to } => self.rename(&text(&from), &text(&to)),
            FilesystemAction::RemoveFile { .. } => match self.files.remove(&path) {
                Some(_) => IoOutcome::Completed,
                None => failure(ErrorKind::NotFound, "no such file"),
            },
            FilesystemAction::SyncDirectory { .. } => {
                if self.dirs.contains(&path) {
                    IoOutcome::Completed
                } else {
                    failure(ErrorKind::NotFound, "no such directory")
                }
            },
            FilesystemAction::SyncFile { .. } => {
                if self.files.contains_key(&path) {
                    IoOutcome::Completed
                } else {
                    failure(ErrorKind::NotFound, "no such file")
                }
            },
            FilesystemAction::Exists { .. } => IoOutcome::Present(
                self.files.contains_key(&path) || self.dirs.contains(&path),
            ),
            FilesystemAction::IsFile { .. } => IoOutcome::Present(self.files.contains_key(&path)),
        }
    }
}

trait Operation {
    fn first(&mut self, store: &mut FilesystemStore) -> ExecuteStep;
    fn next(&mut self, store: &mut FilesystemStore, outcome: IoOutcome) -> ExecuteStep;
}

impl Operation for FilesystemStoreWriteOperation {
    fn first(&mut self, store: &mut FilesystemStore) -> ExecuteStep {
        self.execute(store)
    }
    fn next(&mut self, store: &mut FilesystemStore, outcome: IoOutcome) -> ExecuteStep {
        self.resume(store, outcome)
    }
}

impl Operation for FilesystemStoreRemoveOperation {
    fn first(&mut self, store: &mut FilesystemStore) -> ExecuteStep {
        self.execute(store)
    }
    fn next(&mut self, store: &mut FilesystemStore, outcome: IoOutcome) -> ExecuteStep {
        self.resume(store, outcome)
    }
}

fn run<O: Operation>(
    operation: &mut O,
    store: &mut FilesystemStore,
    disk: &mut Disk,
) -> Result<FilesystemStoreOperationStatus, StoreError> {
    disk.log.clear();
    let mut step = operation.first(store);
    loop {
        match step {
            ExecuteStep::Wait => panic!("the file is in use"),
            ExecuteStep::Perform(action) => {
                let outcome = disk.perform(action);
                step = operation.next(store, outcome);
            },
            ExecuteStep::Finished(result) => return result,
        }
    }
}

fn write(
    store: &mut FilesystemStore,
    disk: &mut Disk,
    names: [&str; 3],
    buf: &[u8],
) -> Result<FilesystemStoreOperationStatus, StoreError> {
    let mut operation = match store.prepare_write(names[0], names[1], names[2], buf.to_vec()) {
        Ok(operation) => operation,
        Err(PrepareError::Rejected(error)) => return Err(error),
        Err(PrepareError::VersionCounterOverflowed) => panic!("no versions left"),
    };
    let result = run(&mut operation, store, disk);
    operation.release(store);
    result
}

fn remove(
    store: &mut FilesystemStore,
    disk: &mut Disk,
    names: [&str; 3],
    lazy: bool,
) -> Result<FilesystemStoreOperationStatus, StoreError> {
    let mut operation = match store.prepare_remove(names[0], names[1], names[2], lazy) {
        Ok(operation) => operation,
        Err(PrepareError::Rejected(error)) => return Err(error),
        Err(PrepareError::VersionCounterOverflowed) => panic!("no versions left"),
    };
    let result = run(&mut operation, store, disk);
    operation.release(store);
    result
}

fn read(
    store: &mut FilesystemStore,
    disk: &Disk,
    names: [&str; 3],
) -> Result<Vec<u8>, StoreError> {
    let mut operation = store.prepare_read(names[0], names[1], names[2])?;
    match operation.execute(store) {
        ReadStep::Wait => panic!("the file is in use"),
        ReadStep::ReadFile(path) => {
            let contents = match disk.file(&text(&path)) {
                Some(contents) => Ok(contents.to_vec()),
                None => Err(StoreError::new(ErrorKind::NotFound, "no such file".to_string())),
            };
            operation.finish(store, contents)
        },
    }
}

fn new_test_store(platform: Platform) -> FilesystemStore {
    FilesystemStore::new(PathBuf::from("data"), platform)
}

const APPLIED: FilesystemStoreOperationStatus = FilesystemStoreOperationStatus::Applied;
const SUPERSEDED: FilesystemStoreOperationStatus = FilesystemStoreOperationStatus::Superseded;

#[test]
fn prepared_operations_preserve_order_and_allow_same_version_retry() {
    for platform in [Platform::Unix, Platform::Windows] {
        let mut store = new_test_store(platform);
        let mut disk = Disk::new();
        disk.make_dirs("primary/secondary/key");

        let mut retrying_write =
            store.prepare_write("primary", "secondary", "key", b"older".to_vec()).unwrap();
        assert!(run(&mut retrying_write, &mut store, &mut disk).is_err());
        assert!(!disk.has_artifacts());

        disk.dirs.remove("primary/secondary/key");
        assert_eq!(run(&mut retrying_write, &mut store, &mut disk).unwrap(), APPLIED);
        assert_eq!(disk.file("primary/secondary/key").unwrap(), b"older");

        let mut older =
            store.prepare_write("primary", "secondary", "other_key", b"older".to_vec()).unwrap();
        let mut newer =
            store.prepare_write("primary", "secondary", "other_key", b"newer".to_vec()).unwrap();
        disk.make_dirs("primary/secondary/other_key");
        assert!(run(&mut newer, &mut store, &mut disk).is_err());
        assert!(!disk.has_artifacts());

        // The newer write failed before changing the destination, so the older write can still
        // apply safely. It must actually write the file rather than report a false success.
        disk.dirs.remove("primary/secondary/other_key");
        assert_eq!(run(&mut older, &mut store, &mut disk).unwrap(), APPLIED);
        assert_eq!(disk.file("primary/secondary/other_key").unwrap(), b"older");

        assert_eq!(run(&mut newer, &mut store, &mut disk).unwrap(), APPLIED);
        assert_eq!(disk.file("primary/secondary/other_key").unwrap(), b"newer");
        assert_eq!(run(&mut older, &mut store, &mut disk).unwrap(), SUPERSEDED);

        let mut final_write =
            store.prepare_write("primary", "secondary", "key", b"newer".to_vec()).unwrap();
        disk.files.remove("primary/secondary/key");
        disk.make_dirs("primary/secondary/key");
        assert!(run(&mut final_write, &mut store, &mut disk).is_err());
        assert!(!disk.has_artifacts());

        disk.dirs.remove("primary/secondary/key");
        assert_eq!(run(&mut final_write, &mut store, &mut disk).unwrap(), APPLIED);
        assert_eq!(disk.file("primary/secondary/key").unwrap(), b"newer");
    }
}

#[test]
fn prepared_operations_execute_in_reverse_invocation_order() {
    let mut store = new_test_store(Platform::Unix);
    let mut disk = Disk::new();
    let mut older = store.prepare_write("primary", "", "key", b"older".to_vec()).unwrap();
    let mut newer = store.prepare_write("primary", "", "key", b"newer".to_vec()).unwrap();

    assert_eq!(run(&mut newer, &mut store, &mut disk).unwrap(), APPLIED);
    assert_eq!(run(&mut older, &mut store, &mut disk).unwrap(), SUPERSEDED);
    assert_eq!(disk.file("primary/key").unwrap(), b"newer");
    assert!(!disk.has_artifacts());
}

#[test]
fn concurrently_dropped_operations_clean_their_lock_state() {
    let mut store = new_test_store(Platform::Unix);
    let first = store.prepare_remove("primary", "", "key", false).unwrap();
    let second = store.prepare_remove("primary", "", "key", false).unwrap();
    assert_eq!(store.state_size(), 1);
    second.release(&mut store);
    assert_eq!(store.state_size(), 1);
    first.release(&mut store);
    assert_eq!(store.state_size(), 0);
}

#[test]
fn version_overflow_does_not_wrap_or_leak_lock_state() {
    let mut store =
        FilesystemStore::with_next_version(PathBuf::from("data"), Platform::Unix, u64::MAX);
    let result = store.prepare_remove("primary", "", "key", false);
    assert!(matches!(result, Err(PrepareError::VersionCounterOverflowed)));
    assert_eq!(store.next_version(), u64::MAX);
    assert_eq!(store.state_size(), 0);

    let result = store.prepare_write("primary", "", "key", b"value".to_vec());
    assert!(matches!(result, Err(PrepareError::VersionCounterOverflowed)));
    assert_eq!(store.next_version(), u64::MAX);
    assert_eq!(store.state_size(), 0);
}

#[test]
fn the_last_version_but_one_is_handed_out() {
    let mut store =
        FilesystemStore::with_next_version(PathBuf::from("data"), Platform::Unix, u64::MAX - 1);
    let operation = store.prepare_remove("primary", "", "key", false).unwrap();
    assert_eq!(operation.version(), u64::MAX - 1);
    assert_eq!(store.next_version(), u64::MAX);
    operation.release(&mut store);
    assert_eq!(store.state_size(), 0);
}

#[test]
fn same_remove_token_retries_pending_directory_sync_after_unlink() {
    let mut store = new_test_store(Platform::Unix);
    let mut disk = Disk::new();
    write(&mut store, &mut disk, ["primary", "", "key"], b"value").unwrap();
    let mut remove = store.prepare_remove("primary", "", "key", false).unwrap();

    disk.broken.push("sync_dir");
    assert!(run(&mut remove, &mut store, &mut disk).is_err());
    assert!(disk.file("primary/key").is_none());

    disk.broken.clear();
    assert_eq!(run(&mut remove, &mut store, &mut disk).unwrap(), APPLIED);
    assert_eq!(disk.log, vec!["sync_dir primary"]);
    remove.release(&mut store);
    assert_eq!(store.state_size(), 0);
}

#[test]
fn older_operation_waits_for_newer_pending_durability() {
    let mut store = new_test_store(Platform::Unix);
    let mut disk = Disk::new();
    write(&mut store, &mut disk, ["primary", "", "key"], b"initial").unwrap();
    let mut older = store.prepare_write("primary", "", "key", b"older".to_vec()).unwrap();
    let mut newer = store.prepare_remove("primary", "", "key", false).unwrap();

    // The remove deletes the file and then fails to sync its parent.
    disk.broken.push("sync_dir");
    assert!(run(&mut newer, &mut store, &mut disk).is_err());
    disk.broken.clear();
    newer.release(&mut store);
    assert_eq!(store.state_size(), 1);
    disk.rename_dir("primary", "primary-unavailable");

    // The older write must surface the failed durability retry, not return success while the
    // destination is absent or overwrite the newer mutation.
    assert!(run(&mut older, &mut store, &mut disk).is_err());
    assert!(disk.file("primary/key").is_none());

    disk.rename_dir("primary-unavailable", "primary");
    assert_eq!(run(&mut older, &mut store, &mut disk).unwrap(), SUPERSEDED);
    assert!(disk.file("primary/key").is_none());
}

#[test]
fn pending_durability_outlives_the_operations() {
    let mut store = new_test_store(Platform::Unix);
    let mut disk = Disk::new();
    disk.broken.push("sync_dir");
    assert!(write(&mut store, &mut disk, ["primary", "", "key"], b"value").is_err());
    assert_eq!(store.state_size(), 1);
    assert_eq!(disk.file("primary/key").unwrap(), b"value");

    disk.broken.clear();
    assert_eq!(read(&mut store, &disk, ["primary", "", "key"]).unwrap(), b"value");
    assert_eq!(store.state_size(), 1);
    assert_eq!(
        write(&mut store, &mut disk, ["primary", "", "key"], b"later").unwrap(),
        APPLIED,
    );
    assert_eq!(disk.log[0], "sync_dir primary");
    assert_eq!(store.state_size(), 0);
}

#[test]
fn durable_remove_retries_pending_trash_sync() {
    let mut store = new_test_store(Platform::Windows);
    let mut disk = Disk::new();
    disk.make_dirs("primary");
    disk.files.insert("primary/key".to_string(), b"removed data".to_vec());
    let mut remove = store.prepare_remove("primary", "", "key", false).unwrap();

    // The file is moved to the trash file, which is then not there to be synced.
    disk.broken.push("sync_file");
    assert!(run(&mut remove, &mut store, &mut disk).is_err());
    assert_eq!(disk.file("primary/key.0.trash").unwrap(), b"removed data");
    disk.broken.clear();
    disk.files.remove("primary/key.0.trash");
    disk.make_dirs("primary/key.0.trash");
    assert!(run(&mut remove, &mut store, &mut disk).is_err());

    disk.dirs.remove("primary/key.0.trash");
    disk.files.insert("primary/key.0.trash".to_string(), b"removed data".to_vec());
    assert_eq!(run(&mut remove, &mut store, &mut disk).unwrap(), APPLIED);
    assert!(disk.file("primary/key.0.trash").is_none());
    assert_eq!(disk.log, vec!["sync_file primary/key.0.trash", "remove primary/key.0.trash"]);
}

#[test]
fn async_write_does_not_report_false_success_after_newer_pre_mutation_failure() {
    // An asynchronous write prepares its operation at once and executes it when it is polled.
    let mut store = new_test_store(Platform::Unix);
    let mut disk = Disk::new();
    let mut older = store.prepare_write("primary", "", "key", b"older".to_vec()).unwrap();
    let mut newer = store.prepare_write("primary", "", "key", b"newer".to_vec()).unwrap();
    disk.make_dirs("primary/key");

    assert!(run(&mut newer, &mut store, &mut disk).is_err());
    disk.dirs.remove("primary/key");
    run(&mut older, &mut store, &mut disk).unwrap();
    assert_eq!(disk.file("primary/key").unwrap(), b"older");

    assert_eq!(run(&mut newer, &mut store, &mut disk).unwrap(), APPLIED);
    assert_eq!(disk.file("primary/key").unwrap(), b"newer");
}

#[test]
fn async_write_errors_while_newer_durability_is_pending() {
    let mut store = new_test_store(Platform::Unix);
    let mut disk = Disk::new();
    write(&mut store, &mut disk, ["primary", "", "key"], b"initial").unwrap();
    let mut older = store.prepare_write("primary", "", "key", b"older".to_vec()).unwrap();
    let mut newer = store.prepare_remove("primary", "", "key", false).unwrap();

    disk.broken.push("sync_dir");
    assert!(run(&mut newer, &mut store, &mut disk).is_err());
    disk.broken.clear();
    newer.release(&mut store);
    disk.rename_dir("primary", "primary-unavailable");

    assert!(run(&mut older, &mut store, &mut disk).is_err());
    assert!(disk.file("primary/key").is_none());

    disk.rename_dir("primary-unavailable", "primary");
    let mut recovery = store.prepare_remove("primary", "", "key", false).unwrap();
    assert_eq!(run(&mut recovery, &mut store, &mut disk).unwrap(), APPLIED);
}

#[test]
fn operations_are_ordered_by_preparation() {
    let mut store = new_test_store(Platform::Unix);
    let mut disk = Disk::new();
    assert_eq!(store.state_size(), 0);
    let data1 = vec![42u8; 32];
    let data2 = vec![43u8; 32];
    let names = ["testspace", "testsubspace", "testkey"];

    let mut first = store.prepare_write(names[0], names[1], names[2], data1).unwrap();
    assert_eq!(store.state_size(), 1);
    let mut second = store.prepare_remove(names[0], names[1], names[2], false).unwrap();
    assert_eq!(store.state_size(), 1);
    let mut third = store.prepare_write(names[0], names[1], names[2], data2.clone()).unwrap();
    assert_eq!(store.state_size(), 1);
    assert_eq!((first.version(), second.version(), third.version()), (1, 2, 3));

    run(&mut third, &mut store, &mut disk).unwrap();
    third.release(&mut store);
    assert_eq!(store.state_size(), 1);
    run(&mut second, &mut store, &mut disk).unwrap();
    second.release(&mut store);
    assert_eq!(store.state_size(), 1);
    run(&mut first, &mut store, &mut disk).unwrap();
    first.release(&mut store);
    assert_eq!(store.state_size(), 0);

    assert_eq!(read(&mut store, &disk, names).unwrap(), data2);
    remove(&mut store, &mut disk, names, false).unwrap();
    assert_eq!(read(&mut store, &disk, names).unwrap_err().kind, ErrorKind::NotFound);
}

#[test]
fn a_write_takes_these_actions() {
    let mut store = new_test_store(Platform::Unix);
    let mut disk = Disk::new();
    assert_eq!(write(&mut store, &mut disk, ["a", "b", "c"], b"1").unwrap(), APPLIED);
    assert_eq!(
        disk.log,
        vec![
            "mkdir a/b",
            "write a/b/c.0.tmp",
            "rename a/b/c.0.tmp a/b/c",
            "sync_dir a/b",
            "remove a/b/c.0.tmp",
        ],
    );

    let mut store = new_test_store(Platform::Windows);
    let mut disk = Disk::new();
    assert_eq!(write(&mut store, &mut disk, ["a", "b", "c"], b"1").unwrap(), APPLIED);
    assert_eq!(
        disk.log,
        vec![
            "mkdir a/b",
            "write a/b/c.0.tmp",
            "exists a/b/c",
            "move a/b/c.0.tmp a/b/c",
            "sync_file a/b/c",
            "remove a/b/c.0.tmp",
        ],
    );
    assert_eq!(write(&mut store, &mut disk, ["a", "b", "c"], b"2").unwrap(), APPLIED);
    assert_eq!(disk.log[1], "write a/b/c.1.tmp");
    assert_eq!(disk.log[3], "replace a/b/c.1.tmp a/b/c");
    assert_eq!(disk.file("a/b/c").unwrap(), b"2");
}

#[test]
fn a_key_without_namespaces_lies_in_the_data_directory() {
    let mut store = new_test_store(Platform::Unix);
    let mut disk = Disk::new();
    assert_eq!(write(&mut store, &mut disk, ["", "", "key"], b"1").unwrap(), APPLIED);
    assert_eq!(disk.log[0], "mkdir ");
    assert_eq!(disk.file("key").unwrap(), b"1");
}

#[test]
fn only_directories_of_namespaces_are_made() {
    let mut store = new_test_store(Platform::Unix);
    let mut disk = Disk::new();
    for names in [["", "", "k"], ["p", "", "k"], ["q", "s", "k"]] {
        write(&mut store, &mut disk, names, b"1").unwrap();
        remove(&mut store, &mut disk, names, false).unwrap();
    }
    remove(&mut store, &mut disk, ["r", "s", "k"], false).unwrap();
    let dirs: Vec<&str> = disk.dirs.iter().map(|dir| dir.as_str()).collect();
    assert_eq!(dirs, vec!["", "p", "q", "q/s"]);
}

#[test]
fn a_removal_takes_these_actions() {
    let mut store = new_test_store(Platform::Unix);
    let mut disk = Disk::new();
    write(&mut store, &mut disk, ["a", "", "c"], b"1").unwrap();
    assert_eq!(remove(&mut store, &mut disk, ["a", "", "c"], false).unwrap(), APPLIED);
    assert_eq!(disk.log, vec!["is_file a/c", "remove a/c", "sync_dir a"]);
    assert_eq!(remove(&mut store, &mut disk, ["a", "", "c"], false).unwrap(), APPLIED);
    assert_eq!(disk.log, vec!["is_file a/c"]);
    write(&mut store, &mut disk, ["a", "", "c"], b"1").unwrap();
    assert_eq!(remove(&mut store, &mut disk, ["a", "", "c"], true).unwrap(), APPLIED);
    assert_eq!(disk.log, vec!["is_file a/c", "remove a/c"]);

    let mut store = new_test_store(Platform::Windows);
    let mut disk = Disk::new();
    write(&mut store, &mut disk, ["a", "", "c"], b"1").unwrap();
    assert_eq!(remove(&mut store, &mut disk, ["a", "", "c"], false).unwrap(), APPLIED);
    assert_eq!(
        disk.log,
        vec![
            "is_file a/c",
            "move a/c a/c.1.trash",
            "sync_file a/c.1.trash",
            "remove a/c.1.trash",
        ],
    );
    write(&mut store, &mut disk, ["a", "", "c"], b"1").unwrap();
    assert_eq!(remove(&mut store, &mut disk, ["a", "", "c"], true).unwrap(), APPLIED);
    assert_eq!(disk.log, vec!["is_file a/c", "remove a/c"]);
}

#[test]
fn every_failing_action_of_a_write_is_reported() {
    for (broken, held) in
        [("mkdir", b"old"), ("write", b"old"), ("rename", b"old"), ("sync_dir", b"new")]
    {
        let mut store = new_test_store(Platform::Unix);
        let mut disk = Disk::new();
        write(&mut store, &mut disk, ["a", "", "c"], b"old").unwrap();
        disk.broken.push(broken);
        let error = write(&mut store, &mut disk, ["a", "", "c"], b"new").unwrap_err();
        assert_eq!(error.kind, ErrorKind::PermissionDenied);
        assert_eq!(error.message.unwrap(), broken);
        assert_eq!(disk.file("a/c").unwrap(), held);
        assert!(!disk.has_artifacts());
        assert_eq!(store.state_size() == 1, broken == "sync_dir");
    }
    for (broken, held) in [("move", b"old"), ("replace", b"old"), ("sync_file", b"new")] {
        let mut store = new_test_store(Platform::Windows);
        let mut disk = Disk::new();
        write(&mut store, &mut disk, ["a", "", "c"], b"old").unwrap();
        if broken == "move" {
            disk.files.clear();
        }
        disk.broken.push(broken);
        let error = write(&mut store, &mut disk, ["a", "", "c"], b"new").unwrap_err();
        assert_eq!(error.message.unwrap(), broken);
        if broken == "move" {
            assert!(disk.file("a/c").is_none());
        } else {
            assert_eq!(disk.file("a/c").unwrap(), held);
        }
    }
}

#[test]
fn every_failing_action_of_a_removal_is_reported() {
    for (platform, lazy, broken, removed) in [
        (Platform::Unix, false, "remove", false),
        (Platform::Unix, true, "remove", false),
        (Platform::Unix, false, "sync_dir", true),
        (Platform::Windows, true, "remove", false),
        (Platform::Windows, false, "move", false),
        (Platform::Windows, false, "sync_file", true),
    ] {
        let mut store = new_test_store(platform);
        let mut disk = Disk::new();
        write(&mut store, &mut disk, ["a", "", "c"], b"old").unwrap();
        disk.broken.push(broken);
        let error = remove(&mut store, &mut disk, ["a", "", "c"], lazy).unwrap_err();
        assert_eq!(error.message.unwrap(), broken);
        assert_eq!(disk.file("a/c").is_none(), removed);
        assert_eq!(store.state_size() == 1, removed);
    }
}

#[test]
fn a_trash_file_that_cannot_be_deleted_is_left_behind() {
    let mut store = new_test_store(Platform::Windows);
    let mut disk = Disk::new();
    write(&mut store, &mut disk, ["a", "", "c"], b"old").unwrap();
    disk.broken.push("remove");
    assert_eq!(remove(&mut store, &mut disk, ["a", "", "c"], false).unwrap(), APPLIED);
    assert_eq!(disk.file("a/c.1.trash").unwrap(), b"old");
    assert_eq!(store.state_size(), 0);
}

#[test]
fn an_applied_operation_is_not_repeated() {
    let mut store = new_test_store(Platform::Unix);
    let mut disk = Disk::new();
    let mut operation = store.prepare_write("a", "", "c", b"1".to_vec()).unwrap();
    assert_eq!(run(&mut operation, &mut store, &mut disk).unwrap(), APPLIED);
    disk.files.clear();
    assert_eq!(run(&mut operation, &mut store, &mut disk).unwrap(), APPLIED);
    assert!(disk.log.is_empty());
    assert!(disk.files.is_empty());
}

#[test]
fn a_file_in_use_makes_others_wait() {
    let mut store = new_test_store(Platform::Unix);
    let mut disk = Disk::new();
    let mut first = store.prepare_write("a", "", "c", b"1".to_vec()).unwrap();
    let mut second = store.prepare_write("a", "", "c", b"2".to_vec()).unwrap();
    let mut reader = store.prepare_read("a", "", "c").unwrap();
    let mut elsewhere = store.prepare_write("a", "", "d", b"3".to_vec()).unwrap();

    let action = match first.execute(&mut store) {
        ExecuteStep::Perform(action) => action,
        other => panic!("unexpected step {:?}", other),
    };
    assert!(matches!(second.execute(&mut store), ExecuteStep::Wait));
    assert!(matches!(reader.execute(&mut store), ReadStep::Wait));
    assert_eq!(run(&mut elsewhere, &mut store, &mut disk).unwrap(), APPLIED);

    let mut step = first.resume(&mut store, disk.perform(action));
    while let ExecuteStep::Perform(action) = step {
        assert!(matches!(second.execute(&mut store), ExecuteStep::Wait));
        step = first.resume(&mut store, disk.perform(action));
    }
    assert!(matches!(step, ExecuteStep::Finished(Ok(FilesystemStoreOperationStatus::Applied))));

    assert!(matches!(reader.execute(&mut store), ReadStep::ReadFile(_)));
    assert!(matches!(second.execute(&mut store), ExecuteStep::Wait));
    let mut other_reader = store.prepare_read("a", "", "c").unwrap();
    assert!(matches!(other_reader.execute(&mut store), ReadStep::ReadFile(_)));
    assert_eq!(reader.finish(&mut store, Ok(b"1".to_vec())).unwrap(), b"1");
    assert!(matches!(second.execute(&mut store), ExecuteStep::Wait));
    assert_eq!(other_reader.finish(&mut store, Ok(b"1".to_vec())).unwrap(), b"1");
    assert_eq!(run(&mut second, &mut store, &mut disk).unwrap(), APPLIED);
    assert_eq!(disk.file("a/c").unwrap(), b"2");

    first.release(&mut store);
    second.release(&mut store);
    elsewhere.release(&mut store);
    assert_eq!(store.state_size(), 0);
}

#[test]
fn executions_on_different_files_interleave() {
    let mut store = new_test_store(Platform::Unix);
    let mut disk = Disk::new();
    let mut operations = Vec::new();
    for (key, buf) in [("a", "1"), ("b", "2"), ("c", "3")] {
        let older = store.prepare_write("p", "", key, b"older".to_vec()).unwrap();
        older.release(&mut store);
        operations.push(store.prepare_write("p", "", key, buf.as_bytes().to_vec()).unwrap());
    }
    let mut steps: Vec<ExecuteStep> =
        operations.iter_mut().map(|operation| operation.execute(&mut store)).collect();
    for _ in 0..5 {
        for (i, operation) in operations.iter_mut().enumerate() {
            let step = std::mem::replace(&mut steps[i], ExecuteStep::Wait);
            match step {
                ExecuteStep::Perform(action) => {
                    steps[i] = operation.resume(&mut store, disk.perform(action));
                },
                other => panic!("unexpected step {:?}", other),
            }
        }
    }
    for (i, operation) in operations.into_iter().enumerate() {
        assert!(matches!(
            steps[i],
            ExecuteStep::Finished(Ok(FilesystemStoreOperationStatus::Applied))
        ));
        operation.release(&mut store);
    }
    assert_eq!(disk.file("p/a").unwrap(), b"1");
    assert_eq!(disk.file("p/b").unwrap(), b"2");
    assert_eq!(disk.file("p/c").unwrap(), b"3");
    assert!(!disk.has_artifacts());
    assert_eq!(store.state_size(), 0);
}

#[test]
fn a_read_hands_through_what_was_read() {
    let mut store = new_test_store(Platform::Unix);
    let mut operation = store.prepare_read("a", "b", "c").unwrap();
    match operation.execute(&mut store) {
        ReadStep::ReadFile(path) => assert_eq!(text(&path), "a/b/c"),
        ReadStep::Wait => panic!("the file is in use"),
    }
    assert_eq!(store.state_size(), 1);
    let error = StoreError::new(ErrorKind::Interrupted, "stopped".to_string());
    let result = operation.finish(&mut store, Err(error));
    assert_eq!(result.unwrap_err().kind, ErrorKind::Interrupted);
    assert_eq!(store.state_size(), 0);
    assert_eq!(store.next_version(), 1);
}

#[test]
fn a_read_that_has_not_begun_can_be_given_up() {
    let mut store = new_test_store(Platform::Unix);
    let operation = store.prepare_read("a", "b", "c").unwrap();
    assert_eq!(store.state_size(), 1);
    operation.release(&mut store);
    assert_eq!(store.state_size(), 0);
}

#[test]
fn refused_names_take_no_version() {
    let mut store = new_test_store(Platform::Unix);
    let result = store.prepare_write("", "b", "c", Vec::new());
    let error = match result {
        Err(PrepareError::Rejected(error)) => error,
        _ => panic!("the names were accepted"),
    };
    assert_eq!(error.kind, ErrorKind::Other);
    assert_eq!(
        error.message.unwrap(),
        "Failed to write /b/c: primary namespace may not be empty if a non-empty secondary \
         namespace is given.",
    );
    assert!(matches!(
        store.prepare_remove("a", "b", "", false),
        Err(PrepareError::Rejected(_))
    ));
    assert_eq!(
        store.prepare_read("a", "b", "c.d").err().unwrap().message.unwrap(),
        "Failed to read a/b/c.d: primary namespace, secondary namespace, and key must be valid.",
    );
    assert_eq!(store.next_version(), 1);
    assert_eq!(store.state_size(), 0);
}

#[test]
fn the_data_directory_is_kept() {
    let store = FilesystemStore::new(PathBuf::from("some/where"), Platform::Unix);
    assert_eq!(store.get_data_dir(), PathBuf::from("some/where"));
    assert_eq!(store.next_version(), 1);
    assert_eq!(store.state_size(), 0);
    assert!(store.can_prepare("a", "b", "c"));
}
