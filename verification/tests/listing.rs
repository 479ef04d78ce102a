//! Listings of directories that are kept in memory.

use filesystem_store::action::{ExecuteStep, FilesystemAction, IoOutcome};
use filesystem_store::error::{ErrorKind, StoreError};
use filesystem_store::listing::{
    dir_entry_is_key, get_key_from_dir_entry_path, DirEntryPath, EntryFate, EntryKind, KeyListing,
    ListAction, ListOutcome, ListStep, LIST_DIR_CONSISTENCY_RETRIES,
};
use filesystem_store::migration::AllKeysListing;
use filesystem_store::operation::FilesystemStoreRemoveOperation;
use filesystem_store::path::{get_dest_dir_path, StorePath};
use filesystem_store::read::ReadStep;
use filesystem_store::state::Platform;
use filesystem_store::store::FilesystemStore;
use lightning::util::persist::KVSTORE_NAMESPACE_KEY_MAX_LEN;
use std::collections::BTreeMap;
use std::path::PathBuf;

#[derive(Clone, Debug, PartialEq)]
enum Item {
    File(Vec<u8>),
    Dir,
    Socket,
}

/// What lies below the data directory, by path.
struct Disk {
    items: BTreeMap<String, Item>,
    /// How often the next entries vanish between being reported and being looked at.
    vanishing: usize,
    opened: usize,
}

fn text(path: &StorePath) -> String {
    let mut parts = Vec::new();
    for i in 0..path.len() {
        parts.push(String::from_utf8(path.component(i).clone()).unwrap());
    }
    parts.join("/")
}

fn below(dir: &str, name: &str) -> String {
    if dir.is_empty() {
        name.to_string()
    } else {
        format!("{}/{}", dir, name)
    }
}

fn failed(kind: ErrorKind) -> ListOutcome {
    ListOutcome::Failed(StoreError::new(kind, "failed".to_string()))
}

fn entry(dir: &str, name: &str) -> DirEntryPath {
    let path = below(dir, name);
    let mut components = data_dir();
    for part in path.split('/') {
        components.push_bytes(part.as_bytes().to_vec());
    }
    DirEntryPath { path: components, shown: Some(format!("/data/{}", path)) }
}

/// The whole path of the data directory.
fn data_dir() -> StorePath {
    path_of(&["/", "data"])
}

fn path_of(parts: &[&str]) -> StorePath {
    let mut path = StorePath::root();
    for part in parts {
        path.push_bytes(part.as_bytes().to_vec());
    }
    path
}

impl Disk {
    fn new() -> Disk {
        Disk { items: BTreeMap::new(), vanishing: 0, opened: 0 }
    }

    fn make_dirs(&mut self, path: &str) {
        let mut at = String::new();
        for part in path.split('/').filter(|part| !part.is_empty()) {
            at = below(&at, part);
            self.items.entry(at.clone()).or_insert(Item::Dir);
        }
    }

    fn put(&mut self, path: &str, contents: &[u8]) {
        if let Some(i) = path.rfind('/') {
            self.make_dirs(&path[..i]);
        }
        self.items.insert(path.to_string(), Item::File(contents.to_vec()));
    }

    /// The names of the entries of a directory.
    fn names(&self, dir: &str) -> Vec<String> {
        let mut names = Vec::new();
        for path in self.items.keys() {
            let name = match path.rfind('/') {
                Some(i) if &path[..i] == dir => &path[i + 1..],
                None if dir.is_empty() => path.as_str(),
                _ => continue,
            };
            names.push(name.to_string());
        }
        names
    }

    fn perform(&mut self, action: FilesystemAction) -> IoOutcome {
        match action {
            FilesystemAction::CreateDirAll { path } => self.make_dirs(&text(&path)),
            FilesystemAction::WriteFile { path, contents } => self.put(&text(&path), &contents),
            FilesystemAction::Rename { from, to }
            | FilesystemAction::ReplaceFile { from, to }
            | FilesystemAction::MoveFile { from, to } => {
                let item = self.items.remove(&text(&from)).unwrap();
                self.items.insert(text(&to), item);
            },
            FilesystemAction::RemoveFile { path } => {
                self.items.remove(&text(&path));
            },
            FilesystemAction::SyncDirectory { .. } | FilesystemAction::SyncFile { .. } => {},
            FilesystemAction::Exists { path } | FilesystemAction::IsFile { path } => {
                let found = matches!(self.items.get(&text(&path)), Some(Item::File(_)));
                return IoOutcome::Present(found);
            },
        }
        IoOutcome::Completed
    }

    /// Answers what a listing asks. `open` holds the open directories with the entries ahead.
    fn answer(
        &mut self,
        root: &str,
        open: &mut Vec<(String, Vec<String>)>,
        last: &mut String,
        action: ListAction,
    ) -> ListOutcome {
        match action {
            ListAction::Exists => {
                ListOutcome::Present(root.is_empty() || self.items.contains_key(root))
            },
            ListAction::ReadDir { depth } => {
                open.truncate(depth);
                let dir = if depth == 0 { root.to_string() } else { last.clone() };
                let names = self.names(&dir);
                open.push((dir, names));
                self.opened += 1;
                ListOutcome::Completed
            },
            ListAction::NextEntry { depth } => {
                open.truncate(depth + 1);
                let (dir, names) = &mut open[depth];
                if names.is_empty() {
                    return ListOutcome::End;
                }
                let name = names.remove(0);
                *last = below(dir, &name);
                ListOutcome::Entry(entry(dir, &name))
            },
            ListAction::Metadata => {
                if self.vanishing > 0 {
                    self.vanishing -= 1;
                    return failed(ErrorKind::NotFound);
                }
                ListOutcome::Kind(match self.items.get(last.as_str()).unwrap() {
                    Item::File(_) => EntryKind::File,
                    Item::Dir => EntryKind::Directory,
                    Item::Socket => EntryKind::Other,
                })
            },
            ListAction::RemoveEntry => {
                self.items.remove(last.as_str());
                ListOutcome::Completed
            },
        }
    }
}

fn list(
    store: &FilesystemStore,
    disk: &mut Disk,
    primary_namespace: &str,
    secondary_namespace: &str,
) -> Result<Vec<String>, StoreError> {
    let (mut listing, mut action) =
        KeyListing::new(data_dir(), primary_namespace, secondary_namespace)?;
    let root = text(listing.dir());
    let mut open = Vec::new();
    let mut last = String::new();
    loop {
        let outcome = disk.answer(&root, &mut open, &mut last, action);
        match listing.resume(store, outcome) {
            ListStep::Wait => panic!("files are being changed"),
            ListStep::Perform(next) => action = next,
            ListStep::Finished(result) => return result,
        }
    }
}

fn list_all_keys(
    store: &FilesystemStore,
    disk: &mut Disk,
) -> Result<Vec<(String, String, String)>, StoreError> {
    let (mut listing, mut action) = AllKeysListing::new(data_dir());
    let mut open = Vec::new();
    let mut last = String::new();
    loop {
        let outcome = disk.answer("", &mut open, &mut last, action);
        match listing.resume(store, outcome) {
            ListStep::Wait => panic!("files are being changed"),
            ListStep::Perform(next) => action = next,
            ListStep::Finished(result) => return result,
        }
    }
}

fn write(store: &mut FilesystemStore, disk: &mut Disk, names: [&str; 3], buf: &[u8]) {
    let mut operation = store.prepare_write(names[0], names[1], names[2], buf.to_vec()).unwrap();
    let mut step = operation.execute(store);
    while let ExecuteStep::Perform(action) = step {
        step = operation.resume(store, disk.perform(action));
    }
    assert!(matches!(step, ExecuteStep::Finished(Ok(_))));
    operation.release(store);
}

fn remove(store: &mut FilesystemStore, disk: &mut Disk, names: [&str; 3]) {
    let mut operation = store.prepare_remove(names[0], names[1], names[2], false).unwrap();
    let mut step = operation.execute(store);
    while let ExecuteStep::Perform(action) = step {
        step = operation.resume(store, disk.perform(action));
    }
    assert!(matches!(step, ExecuteStep::Finished(Ok(_))));
    operation.release(store);
}

fn read(store: &mut FilesystemStore, disk: &Disk, names: [&str; 3]) -> Vec<u8> {
    let mut operation = store.prepare_read(names[0], names[1], names[2]).unwrap();
    match operation.execute(store) {
        ReadStep::Wait => panic!("the file is in use"),
        ReadStep::ReadFile(path) => match disk.items.get(&text(&path)) {
            Some(Item::File(contents)) => operation.finish(store, Ok(contents.clone())).unwrap(),
            other => panic!("unexpected item {:?}", other),
        },
    }
}

fn new_test_store(platform: Platform) -> FilesystemStore {
    FilesystemStore::new(PathBuf::from("/data"), platform)
}

fn triple(p: &str, s: &str, k: &str) -> (String, String, String) {
    (p.to_string(), s.to_string(), k.to_string())
}

#[test]
fn read_write_remove_list_persist() {
    let mut store = new_test_store(Platform::Unix);
    let mut disk = Disk::new();
    let data = vec![42u8; 32];
    let names = ["testspace", "testsubspace", "testkey"];

    write(&mut store, &mut disk, names, &data);
    write(&mut store, &mut disk, ["", "", names[2]], &data);
    assert!(store.prepare_write("", names[1], names[2], data.clone()).is_err());
    assert!(store.prepare_write(names[0], names[1], "", data.clone()).is_err());

    let listed_keys = list(&store, &mut disk, names[0], names[1]).unwrap();
    assert_eq!(listed_keys.len(), 1);
    assert_eq!(listed_keys[0], names[2]);
    assert_eq!(read(&mut store, &disk, names), data);

    remove(&mut store, &mut disk, names);
    assert_eq!(list(&store, &mut disk, names[0], names[1]).unwrap().len(), 0);

    // The longest names are as good as any.
    let max_chars = "A".repeat(KVSTORE_NAMESPACE_KEY_MAX_LEN);
    let names = [max_chars.as_str(), max_chars.as_str(), max_chars.as_str()];
    write(&mut store, &mut disk, names, &data);
    let listed_keys = list(&store, &mut disk, names[0], names[1]).unwrap();
    assert_eq!(listed_keys, vec![max_chars.clone()]);
    assert_eq!(read(&mut store, &disk, names), data);
    remove(&mut store, &mut disk, names);
    assert_eq!(list(&store, &mut disk, names[0], names[1]).unwrap().len(), 0);
}

#[test]
fn read_write_remove_list_persist_async() {
    // Asynchronous calls prepare their operations at once and execute them in any order.
    let mut store = new_test_store(Platform::Unix);
    let mut disk = Disk::new();
    assert_eq!(store.state_size(), 0);
    let data1 = vec![42u8; 32];
    let data2 = vec![43u8; 32];
    let primary_namespace = "testspace";
    let secondary_namespace = "testsubspace";
    let key = "testkey";

    let mut fut1 =
        store.prepare_write(primary_namespace, secondary_namespace, key, data1).unwrap();
    assert_eq!(store.state_size(), 1);
    let mut fut2 =
        store.prepare_remove(primary_namespace, secondary_namespace, key, false).unwrap();
    assert_eq!(store.state_size(), 1);
    let mut fut3 =
        store.prepare_write(primary_namespace, secondary_namespace, key, data2.clone()).unwrap();
    assert_eq!(store.state_size(), 1);

    let mut step = fut3.execute(&mut store);
    while let ExecuteStep::Perform(action) = step {
        step = fut3.resume(&mut store, disk.perform(action));
    }
    assert!(matches!(step, ExecuteStep::Finished(Ok(_))));
    fut3.release(&mut store);
    assert_eq!(store.state_size(), 1);

    assert!(matches!(fut2.execute(&mut store), ExecuteStep::Finished(Ok(_))));
    fut2.release(&mut store);
    assert_eq!(store.state_size(), 1);

    assert!(matches!(fut1.execute(&mut store), ExecuteStep::Finished(Ok(_))));
    fut1.release(&mut store);
    assert_eq!(store.state_size(), 0);

    let listed_keys = list(&store, &mut disk, primary_namespace, secondary_namespace).unwrap();
    assert_eq!(listed_keys.len(), 1);
    assert_eq!(listed_keys[0], key);

    // We expect to read data2, as the write call was initiated later.
    let names = [primary_namespace, secondary_namespace, key];
    assert_eq!(read(&mut store, &disk, names), data2);

    remove(&mut store, &mut disk, names);
    let listed_keys = list(&store, &mut disk, primary_namespace, secondary_namespace).unwrap();
    assert_eq!(listed_keys.len(), 0);
}

#[test]
fn list_all_keys_skips_leftover_store_artifacts() {
    let mut store = new_test_store(Platform::Unix);
    let mut disk = Disk::new();
    write(&mut store, &mut disk, ["primary", "secondary", "key"], &[1]);
    disk.put("top_level.0.tmp", b"stale");
    disk.put("top_level.0.trash", b"stale");
    disk.put("primary/primary_level.0.tmp", b"stale");
    disk.put("primary/primary_level.0.trash", b"stale");
    disk.put("primary/secondary/secondary_level.0.tmp", b"stale");
    disk.put("primary/secondary/secondary_level.0.trash", b"stale");

    let keys = list_all_keys(&store, &mut disk).unwrap();
    assert_eq!(keys, vec![triple("primary", "secondary", "key")]);
    assert!(disk.items.contains_key("top_level.0.trash"));
}

#[test]
fn leftover_trash_is_deleted_where_removals_leave_it() {
    let mut store = new_test_store(Platform::Windows);
    let mut disk = Disk::new();
    write(&mut store, &mut disk, ["primary", "secondary", "key"], &[1]);
    disk.put("top_level.0.tmp", b"stale");
    disk.put("top_level.0.trash", b"stale");
    disk.put("primary/primary_level.0.trash", b"stale");
    disk.put("primary/secondary/secondary_level.0.trash", b"stale");

    let keys = list_all_keys(&store, &mut disk).unwrap();
    assert_eq!(keys, vec![triple("primary", "secondary", "key")]);
    assert!(disk.items.contains_key("top_level.0.tmp"));
    assert!(!disk.items.keys().any(|path| path.ends_with(".trash")));
}

#[test]
fn test_data_migration() {
    let mut source_store = new_test_store(Platform::Unix);
    let mut source_disk = Disk::new();
    let mut target_store = new_test_store(Platform::Windows);
    let mut target_disk = Disk::new();
    let dummy_data = vec![42u8; 32];
    let num_primary_namespaces: usize = 3;
    let num_secondary_namespaces: usize = 3;
    let num_keys: usize = 3;

    let mut expected_keys = Vec::new();
    for i in 0..num_primary_namespaces {
        let primary_namespace =
            if i == 0 { String::new() } else { format!("testspace{}", i) };
        for j in 0..num_secondary_namespaces {
            let secondary_namespace =
                if i == 0 || j == 0 { String::new() } else { format!("testsubspace{}", j) };
            for k in 0..num_keys {
                let key = format!("testkey{}", j * num_keys + k);
                let names = [primary_namespace.as_str(), secondary_namespace.as_str(), &key];
                write(&mut source_store, &mut source_disk, names, &dummy_data);
                expected_keys.push(triple(names[0], names[1], names[2]));
            }
        }
    }
    expected_keys.sort();

    let mut source_list = list_all_keys(&source_store, &mut source_disk).unwrap();
    source_list.sort();
    assert_eq!(source_list, expected_keys);

    for (primary_namespace, secondary_namespace, key) in &source_list {
        let names = [primary_namespace.as_str(), secondary_namespace.as_str(), key.as_str()];
        let data = read(&mut source_store, &source_disk, names);
        write(&mut target_store, &mut target_disk, names, &data);
    }

    let mut target_list = list_all_keys(&target_store, &mut target_disk).unwrap();
    target_list.sort();
    assert_eq!(target_list, expected_keys);
    for (p, s, k) in &target_list {
        assert_eq!(read(&mut target_store, &target_disk, [p, s, k]), dummy_data);
    }
}

/// Removes a key so that its trash file is there and not synced.
fn half_removed(store: &mut FilesystemStore, disk: &mut Disk) -> FilesystemStoreRemoveOperation {
    disk.put("primary/key", b"removed data");
    let mut operation = store.prepare_remove("primary", "", "key", false).unwrap();
    let mut step = operation.execute(store);
    loop {
        step = match step {
            ExecuteStep::Perform(FilesystemAction::SyncFile { .. }) => {
                let error = StoreError::new(ErrorKind::PermissionDenied, "sync".to_string());
                operation.resume(store, IoOutcome::Failed(error))
            },
            ExecuteStep::Perform(action) => operation.resume(store, disk.perform(action)),
            _ => break,
        };
    }
    assert!(matches!(step, ExecuteStep::Finished(Err(_))));
    operation
}

#[test]
fn listing_does_not_delete_pending_trash_file() {
    let mut store = new_test_store(Platform::Windows);
    let mut disk = Disk::new();
    let mut remove = half_removed(&mut store, &mut disk);
    assert_eq!(disk.items.get("primary/key.0.trash"), Some(&Item::File(b"removed data".to_vec())));

    assert!(list(&store, &mut disk, "primary", "").unwrap().is_empty());
    assert!(disk.items.contains_key("primary/key.0.trash"));
    assert!(list_all_keys(&store, &mut disk).unwrap().is_empty());
    assert!(disk.items.contains_key("primary/key.0.trash"));

    // The removal becomes durable, but the trash file cannot be deleted.
    let mut step = remove.execute(&mut store);
    while let ExecuteStep::Perform(action) = step {
        let outcome = match action {
            FilesystemAction::RemoveFile { .. } => IoOutcome::Failed(StoreError::new(
                ErrorKind::PermissionDenied,
                "remove".to_string(),
            )),
            action => disk.perform(action),
        };
        step = remove.resume(&mut store, outcome);
    }
    assert!(matches!(step, ExecuteStep::Finished(Ok(_))));
    assert!(disk.items.contains_key("primary/key.0.trash"));
    assert!(list(&store, &mut disk, "primary", "").unwrap().is_empty());
    assert!(!disk.items.contains_key("primary/key.0.trash"));
}

#[test]
fn trash_waits_while_a_file_is_changed() {
    let mut store = new_test_store(Platform::Windows);
    let mut disk = Disk::new();
    disk.put("primary/other.7.trash", b"stale");
    let dir = get_dest_dir_path("primary", "");
    let name = b"other.7.trash".to_vec();
    assert_eq!(store.dir_entry_is_store_artifact(&dir, &name), EntryFate::Discard);

    let mut operation = store.prepare_write("elsewhere", "", "key", vec![1]).unwrap();
    let mut step = operation.execute(&mut store);
    assert_eq!(store.dir_entry_is_store_artifact(&dir, &name), EntryFate::Wait);

    let (mut listing, action) = KeyListing::new(data_dir(), "primary", "").unwrap();
    assert_eq!(action, ListAction::Exists);
    listing.resume(&store, ListOutcome::Present(true));
    listing.resume(&store, ListOutcome::Completed);
    let trash = entry("primary", "other.7.trash");
    assert!(matches!(listing.resume(&store, ListOutcome::Entry(trash)), ListStep::Wait));
    assert!(matches!(listing.resume(&store, ListOutcome::Completed), ListStep::Wait));

    while let ExecuteStep::Perform(action) = step {
        step = operation.resume(&mut store, disk.perform(action));
    }
    assert!(matches!(
        listing.resume(&store, ListOutcome::Completed),
        ListStep::Perform(ListAction::RemoveEntry)
    ));
    assert!(matches!(
        listing.resume(&store, failed(ErrorKind::PermissionDenied)),
        ListStep::Perform(ListAction::NextEntry { depth: 0 })
    ));
    operation.release(&mut store);
}

#[test]
fn entries_are_told_apart_by_name() {
    let unix = new_test_store(Platform::Unix);
    let windows = new_test_store(Platform::Windows);
    let dir = get_dest_dir_path("primary", "");
    for (name, on_unix, on_windows) in [
        ("key", EntryFate::Inspect, EntryFate::Inspect),
        ("key.0.tmp", EntryFate::Skip, EntryFate::Skip),
        ("key.0.trash", EntryFate::Skip, EntryFate::Discard),
        ("key.0.other", EntryFate::Inspect, EntryFate::Inspect),
    ] {
        let name = name.as_bytes().to_vec();
        assert_eq!(unix.dir_entry_is_store_artifact(&dir, &name), on_unix);
        assert_eq!(windows.dir_entry_is_store_artifact(&dir, &name), on_windows);
    }
}

#[test]
fn a_missing_directory_holds_no_keys() {
    let store = new_test_store(Platform::Unix);
    let mut disk = Disk::new();
    assert_eq!(list(&store, &mut disk, "nowhere", "").unwrap(), Vec::<String>::new());
    assert_eq!(disk.opened, 0);
    let (mut listing, action) = AllKeysListing::new(data_dir());
    assert_eq!(action, ListAction::Exists);
    match listing.resume(&store, ListOutcome::Present(false)) {
        ListStep::Finished(Ok(keys)) => assert!(keys.is_empty()),
        other => panic!("unexpected step {:?}", other),
    }
}

#[test]
fn directories_beside_keys_are_passed_over() {
    let store = new_test_store(Platform::Unix);
    let mut disk = Disk::new();
    disk.put("b", b"1");
    disk.put("a/c", b"2");
    disk.put("d.0.tmp", b"3");
    assert_eq!(list(&store, &mut disk, "", "").unwrap(), vec!["b".to_string()]);
    assert_eq!(list(&store, &mut disk, "a", "").unwrap(), vec!["c".to_string()]);
}

#[test]
fn keys_are_listed_in_the_order_of_the_directory() {
    let store = new_test_store(Platform::Unix);
    let mut disk = Disk::new();
    for path in ["b", "p/s/a", "p/s/b", "p/a", "p/z", "q/s/a"] {
        disk.put(path, b"1");
    }
    assert_eq!(
        list_all_keys(&store, &mut disk).unwrap(),
        vec![
            triple("", "", "b"),
            triple("p", "", "a"),
            triple("p", "s", "a"),
            triple("p", "s", "b"),
            triple("p", "", "z"),
            triple("q", "s", "a"),
        ],
    );
}

#[test]
fn listings_agree_with_one_another() {
    let mut store = new_test_store(Platform::Unix);
    let mut disk = Disk::new();
    for names in
        [["", "", "b"], ["p", "", "a"], ["p", "s", "a"], ["p", "s", "z"], ["q", "s", "a"]]
    {
        write(&mut store, &mut disk, names, b"1");
    }
    disk.put("p/s/a.3.tmp", b"stale");
    let all = list_all_keys(&store, &mut disk).unwrap();
    for (p, s) in [("", ""), ("p", ""), ("p", "s"), ("q", ""), ("q", "s"), ("r", "")] {
        let mut listed = list(&store, &mut disk, p, s).unwrap();
        let mut restricted: Vec<String> =
            all.iter().filter(|key| key.0 == p && key.1 == s).map(|key| key.2.clone()).collect();
        listed.sort();
        restricted.sort();
        assert_eq!(listed, restricted);
    }
    assert_eq!(all.len(), 5);
}

#[test]
fn a_removed_key_is_gone_and_the_others_stay() {
    for platform in [Platform::Unix, Platform::Windows] {
        let mut store = new_test_store(platform);
        let mut disk = Disk::new();
        write(&mut store, &mut disk, ["p", "s", "a"], b"longer value");
        write(&mut store, &mut disk, ["p", "s", "b"], b"2");
        write(&mut store, &mut disk, ["p", "s", "a"], b"");
        assert_eq!(read(&mut store, &disk, ["p", "s", "a"]), b"");
        remove(&mut store, &mut disk, ["p", "s", "a"]);
        let left = disk.items.clone();
        assert_eq!(list(&store, &mut disk, "p", "s").unwrap(), vec!["b".to_string()]);
        assert_eq!(list_all_keys(&store, &mut disk).unwrap(), vec![triple("p", "s", "b")]);
        assert!(!disk.items.contains_key("p/s/a"));
        assert_eq!(read(&mut store, &disk, ["p", "s", "b"]), b"2");
        remove(&mut store, &mut disk, ["p", "s", "a"]);
        assert_eq!(disk.items, left);
    }
}

#[test]
fn a_listing_starts_over_when_an_entry_vanishes() {
    let store = new_test_store(Platform::Unix);
    let mut disk = Disk::new();
    disk.put("p/a", b"1");
    disk.put("p/b", b"2");
    disk.vanishing = LIST_DIR_CONSISTENCY_RETRIES;
    let keys = list(&store, &mut disk, "p", "").unwrap();
    assert_eq!(keys, vec!["a".to_string(), "b".to_string()]);
    assert_eq!(disk.opened, 11);

    disk.opened = 0;
    disk.vanishing = LIST_DIR_CONSISTENCY_RETRIES + 1;
    assert_eq!(list(&store, &mut disk, "p", "").unwrap_err().kind, ErrorKind::NotFound);
    assert_eq!(disk.opened, 11);

    disk.vanishing = 1;
    assert_eq!(list_all_keys(&store, &mut disk).unwrap_err().kind, ErrorKind::NotFound);
}

#[test]
fn failures_of_the_directory_end_a_listing() {
    let store = new_test_store(Platform::Unix);
    for outcomes in [
        vec![failed(ErrorKind::PermissionDenied)],
        vec![ListOutcome::Completed, failed(ErrorKind::PermissionDenied)],
        vec![
            ListOutcome::Completed,
            ListOutcome::Entry(entry("p", "a")),
            failed(ErrorKind::PermissionDenied),
        ],
    ] {
        let (mut listing, _) = KeyListing::new(data_dir(), "p", "").unwrap();
        let mut step = listing.resume(&store, ListOutcome::Present(true));
        for outcome in outcomes {
            step = listing.resume(&store, outcome);
        }
        match step {
            ListStep::Finished(Err(error)) => assert_eq!(error.kind, ErrorKind::PermissionDenied),
            other => panic!("unexpected step {:?}", other),
        }
    }
}

#[test]
fn what_is_neither_file_nor_directory_is_an_error() {
    let store = new_test_store(Platform::Unix);
    let mut disk = Disk::new();
    disk.items.insert("sock".to_string(), Item::Socket);
    let message = "Failed to list keys at path /data/sock: file couldn't be accessed.";
    for error in [
        list(&store, &mut disk, "", "").unwrap_err(),
        list_all_keys(&store, &mut disk).unwrap_err(),
    ] {
        assert_eq!(error.kind, ErrorKind::Other);
        assert_eq!(error.message.unwrap(), message);
    }
    let sock = entry("", "sock");
    assert!(!dir_entry_is_key(&sock, EntryKind::Directory).unwrap());
    assert!(dir_entry_is_key(&sock, EntryKind::File).unwrap());
    assert!(dir_entry_is_key(&sock, EntryKind::Other).is_err());
}

#[test]
fn what_is_no_key_is_an_error() {
    let store = new_test_store(Platform::Unix);
    let mut disk = Disk::new();
    disk.put("p/no key", b"1");
    let message = "Failed to list keys of path /data/p/no key: file path is not valid key";
    assert_eq!(list(&store, &mut disk, "p", "").unwrap_err().message.unwrap(), message);
    assert_eq!(list_all_keys(&store, &mut disk).unwrap_err().message.unwrap(), message);

    let mut disk = Disk::new();
    disk.put("no space/key", b"1");
    assert_eq!(
        list_all_keys(&store, &mut disk).unwrap_err().message.unwrap(),
        "Failed to list keys of path /data/no space: file path is not valid key",
    );
    let mut disk = Disk::new();
    disk.make_dirs("no space");
    assert!(list_all_keys(&store, &mut disk).unwrap().is_empty());
}

#[test]
fn only_two_levels_of_namespaces_are_supported() {
    let store = new_test_store(Platform::Unix);
    let mut disk = Disk::new();
    disk.put("a/b/c/d", b"1");
    let error = list_all_keys(&store, &mut disk).unwrap_err();
    assert_eq!(error.kind, ErrorKind::Other);
    assert_eq!(
        error.message.unwrap(),
        "Failed to list keys of path /data/a/b/c: only two levels of namespaces are supported",
    );
}

#[test]
fn keys_are_read_off_paths() {
    let base = path_of(&["/", "data", "p"]);
    assert_eq!(get_key_from_dir_entry_path(&entry("p", "key"), &base).unwrap(), "key");
    assert_eq!(entry("p", "key").file_name(), b"key");

    // The directory itself has an empty name, which may be a namespace.
    assert_eq!(get_key_from_dir_entry_path(&entry("", "p"), &base).unwrap(), "");

    let mut foreign = DirEntryPath { path: data_dir(), shown: None };
    foreign.path.push_bytes(vec![0xff]);
    let error = get_key_from_dir_entry_path(&foreign, &data_dir()).unwrap_err();
    assert_eq!(error.kind, ErrorKind::Other);
    assert_eq!(
        error.message.unwrap(),
        "Failed to list keys of path : file path is not valid UTF-8",
    );

    let deeper = get_key_from_dir_entry_path(&entry("p", "key"), &data_dir()).unwrap_err();
    assert_eq!(
        deeper.message.unwrap(),
        "Failed to list keys of path /data/p/key: file path is not valid key",
    );
}

#[test]
fn paths_elsewhere_are_not_read_off() {
    // The reason is the one that the standard library gives for such paths.
    let reason = std::path::Path::new("/else/key").strip_prefix("/data").unwrap_err().to_string();
    let elsewhere = DirEntryPath {
        path: path_of(&["/", "else\nwhere", "key"]),
        shown: Some("/else\nwhere/key".to_string()),
    };
    assert_eq!(
        get_key_from_dir_entry_path(&elsewhere, &data_dir()).unwrap_err().message.unwrap(),
        format!("Failed to list keys of path /else\u{FFFD}where/key: {}", reason),
    );

    // Whole components count.
    let beside = DirEntryPath {
        path: path_of(&["/", "database", "key"]),
        shown: Some("/database/key".to_string()),
    };
    assert!(get_key_from_dir_entry_path(&beside, &data_dir()).is_err());
    assert!(std::path::Path::new("/database/key").strip_prefix("/data").is_err());
    let rest = beside.path.strip_base(&path_of(&["/", "database"])).unwrap();
    assert!(rest.same_as(&path_of(&["key"])));
    assert!(beside.path.strip_base(&beside.path).unwrap().same_as(&StorePath::root()));
    assert!(data_dir().strip_base(&beside.path).is_none());
}

#[test]
fn refused_namespaces_are_not_listed() {
    let error = KeyListing::new(data_dir(), "", "s").err().unwrap();
    assert_eq!(error.kind, ErrorKind::Other);
    assert_eq!(
        error.message.unwrap(),
        "Failed to list /s: primary namespace may not be empty if a non-empty secondary namespace \
         is given.",
    );
    assert_eq!(
        KeyListing::new(data_dir(), "p ", "").err().unwrap().message.unwrap(),
        "Failed to list p /: primary namespace and secondary namespace must be valid.",
    );
}
