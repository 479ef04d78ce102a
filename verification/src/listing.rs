//! Listing the keys of a namespace.
//!
//! A listing walks through a directory entry by entry. What the directory holds comes from its
//! caller; which entries are keys, which are skipped and when to start over is decided here.

use crate::error::{ErrorKind, ErrorView, StoreError};
use crate::locks::{any_writing, pending_trash};
use crate::namespace::is_valid_kvstore_str;
use crate::namespace::{fault_error, namespace_fault, valid_kvstore_str};
use crate::path::{Artifact, PathView, StorePath};
use crate::path::{artifact_of, classify_name, dest_path};
use crate::state::Platform;
use crate::store::{FilesystemStore, StoreView};
use crate::text::{copy_bytes, printable, text_of_bytes};
use crate::text::printable_text;
use vstd::prelude::*;
use vstd::utf8::{decode_utf8, valid_utf8};

verus! {

/// How often a listing starts over because an entry vanished before it gives up.
pub const LIST_DIR_CONSISTENCY_RETRIES: usize = 10;

/// The whole path of a directory entry, the data directory's path in front.
#[derive(Debug)]
pub struct DirEntryPath {
    /// The path by its components.
    pub path: StorePath,
    /// The path as messages show it, where it is valid UTF-8.
    pub shown: Option<String>,
}

/// What a [`DirEntryPath`] says.
pub struct EntryView {
    pub path: PathView,
    pub shown: Option<Seq<char>>,
}

impl EntryView {
    /// The name of the entry, which is the last component of its path.
    pub open spec fn file_name(self) -> Seq<u8> {
        if self.path.len() == 0 {
            seq![]
        } else {
            self.path.last()
        }
    }
}

impl View for DirEntryPath {
    type V = EntryView;

    open spec fn view(&self) -> EntryView {
        EntryView {
            path: self.path@,
            shown: match self.shown {
                Some(shown) => Some(shown@),
                None => None,
            },
        }
    }
}

/// What the metadata of a directory entry says it is.
#[derive(Clone, Copy, Debug, PartialEq, Eq, Structural)]
pub enum EntryKind {
    Directory,
    File,
    Other,
}

/// What a listing does with a directory entry.
#[derive(Clone, Copy, Debug, PartialEq, Eq, Structural)]
pub enum EntryFate {
    /// Look at what it is.
    Inspect,
    /// Pass over it.
    Skip,
    /// Delete it and pass over it.
    Discard,
    /// Decide once no file is being changed.
    Wait,
}

/// The error of a listing that stumbled over `entry`.
pub open spec fn listing_error(
    entry: EntryView,
    preposition: Seq<char>,
    reason: Seq<char>,
) -> ErrorView {
    let path = match entry.shown {
        Some(shown) => shown,
        None => seq![],
    };
    ErrorView {
        kind: ErrorKind::Other,
        message: Some(
            "Failed to list keys "@ + preposition + " path "@ + printable_text(path) + ": "@
                + reason,
        ),
    }
}

/// Whether an entry of the given kind is a key: a file is, a directory is passed over, and
/// anything else is an error.
pub open spec fn is_key(entry: EntryView, kind: EntryKind) -> Result<bool, ErrorView> {
    match kind {
        EntryKind::Directory => Ok(false),
        EntryKind::File => Ok(true),
        EntryKind::Other => Err(listing_error(entry, "at"@, "file couldn't be accessed."@)),
    }
}

/// Whether a path can be written as text.
pub open spec fn is_text(path: PathView) -> bool {
    forall|i: int| 0 <= i < path.len() ==> valid_utf8(#[trigger] path[i])
}

/// The text of a path with one component, or with none.
pub open spec fn name_text(path: PathView) -> Seq<char> {
    if path.len() == 0 {
        seq![]
    } else {
        decode_utf8(path[0])
    }
}

/// The key or namespace that an entry stands for, in the directory whose whole path is `base`: what
/// is left of the entry's path when `base` is taken off its front. A text with a separator in it
/// is no key.
pub open spec fn key_of(entry: EntryView, base: PathView) -> Result<Seq<char>, ErrorView> {
    let rest = entry.path.skip(base.len() as int);
    if !base.is_prefix_of(entry.path) {
        Err(listing_error(entry, "of"@, "prefix not found"@))
    } else if !is_text(rest) {
        Err(listing_error(entry, "of"@, "file path is not valid UTF-8"@))
    } else if rest.len() > 1 || !valid_kvstore_str(name_text(rest)) {
        Err(listing_error(entry, "of"@, "file path is not valid key"@))
    } else {
        Ok(name_text(rest))
    }
}

impl StoreView {
    /// What a listing does with the entry called `name` of the directory at `dir`.
    ///
    /// Temporary files are passed over. So are trash files, but where removals leave them behind
    /// they are deleted, except those of a removal that is not durable yet; while a file is being
    /// changed it cannot be told which those are.
    pub open spec fn entry_fate(self, dir: PathView, name: Seq<u8>) -> EntryFate {
        match artifact_of(name) {
            None => EntryFate::Inspect,
            Some(Artifact::Temporary) => EntryFate::Skip,
            Some(Artifact::Trash) => if self.platform == Platform::Unix || pending_trash(
                self.locks,
                dir.push(name),
            ) {
                EntryFate::Skip
            } else if any_writing(self.locks) {
                EntryFate::Wait
            } else {
                EntryFate::Discard
            },
        }
    }
}

/// Builds the error of a listing.
pub(crate) fn new_listing_error(
    entry: &DirEntryPath,
    preposition: &str,
    reason: &str,
) -> (error: StoreError)
    ensures
        error@ == listing_error(entry@, preposition@, reason@),
{
    let shown = match &entry.shown {
        Some(shown) => printable(shown.as_str()),
        None => {
            let empty = String::new();
            assert(empty@ =~= seq![]);
            printable(empty.as_str())
        },
    };
    let mut message = String::new();
    message.append("Failed to list keys ");
    message.append(preposition);
    message.append(" path ");
    message.append(shown.as_str());
    message.append(": ");
    message.append(reason);
    let ghost expected = listing_error(entry@, preposition@, reason@).message->0;
    assert(message@ =~= expected);
    StoreError::new(ErrorKind::Other, message)
}

/// Whether an entry of the given kind is a key.
///
/// Directories are allowed beside keys, in the empty primary namespace, and just passed over.
pub fn dir_entry_is_key(entry: &DirEntryPath, kind: EntryKind) -> (result: Result<bool, StoreError>)
    ensures
        match is_key(entry@, kind) {
            Ok(key) => result == Ok::<bool, StoreError>(key),
            Err(error) => result is Err && result->Err_0@ == error,
        },
{
    match kind {
        EntryKind::Directory => Ok(false),
        EntryKind::File => Ok(true),
        EntryKind::Other => Err(new_listing_error(entry, "at", "file couldn't be accessed.")),
    }
}

impl DirEntryPath {
    /// The name of the entry.
    pub fn file_name(&self) -> (name: Vec<u8>)
        ensures
            name@ == self@.file_name(),
    {
        let n: usize = self.path.len();
        if n == 0 {
            let name: Vec<u8> = Vec::new();
            assert(name@ =~= seq![]);
            name
        } else {
            copy_bytes(self.path.component(n - 1).as_slice())
        }
    }
}

/// The text of a path with one component, or with none. Of a longer path it is found out whether
/// it can be written as text at all.
fn text_of_path(path: &StorePath) -> (text: Option<String>)
    ensures
        text is Some <==> is_text(path@),
        text is Some ==> text->0@ == name_text(path@),
{
    let mut text = String::new();
    assert(text@ =~= seq![]);
    let mut i: usize = 0;
    while i < path.len()
        invariant
            i <= path@.len(),
            forall|j: int| 0 <= j < i ==> valid_utf8(#[trigger] path@[j]),
            text@ == if i == 0 {
                seq![]
            } else {
                name_text(path@)
            },
        decreases path@.len() - i,
    {
        match text_of_bytes(copy_bytes(path.component(i).as_slice())) {
            None => {
                return None;
            },
            Some(part) => {
                proof {
                    vstd::utf8::encode_utf8_decode_utf8(part@);
                }
                if i == 0 {
                    text = part;
                }
            },
        }
        i += 1;
    }
    Some(text)
}

/// The key or namespace that an entry stands for, in the directory whose whole path is `base_path`.
pub fn get_key_from_dir_entry_path(entry: &DirEntryPath, base_path: &StorePath) -> (result: Result<
    String,
    StoreError,
>)
    ensures
        match key_of(entry@, base_path@) {
            Ok(key) => result is Ok && result->Ok_0@ == key,
            Err(error) => result is Err && result->Err_0@ == error,
        },
{
    match entry.path.strip_base(base_path) {
        None => Err(new_listing_error(entry, "of", "prefix not found")),
        Some(rest) => {
            assert(rest@ =~= entry.path@.skip(base_path@.len() as int));
            match text_of_path(&rest) {
                None => Err(new_listing_error(entry, "of", "file path is not valid UTF-8")),
                Some(key) => {
                    if rest.len() <= 1 && is_valid_kvstore_str(key.as_str()) {
                        Ok(key)
                    } else {
                        Err(new_listing_error(entry, "of", "file path is not valid key"))
                    }
                },
            }
        },
    }
}

impl FilesystemStore {
    /// Decides what a listing does with the entry called `name` of the directory at `dir`.
    pub fn dir_entry_is_store_artifact(&self, dir: &StorePath, name: &Vec<u8>) -> (fate: EntryFate)
        requires
            self.valid(),
        ensures
            fate == self@.entry_fate(dir@, name@),
    {
        match classify_name(name.as_slice()) {
            None => EntryFate::Inspect,
            Some(Artifact::Temporary) => EntryFate::Skip,
            Some(Artifact::Trash) => {
                let mut path = dir.duplicate();
                path.push_bytes(copy_bytes(name.as_slice()));
                self.trash_fate(&path)
            },
        }
    }
}

/// One thing that a listing asks of the filesystem.
///
/// Directories are told apart by their depth: the one that is listed has depth 0, and a directory
/// entered from another one is one deeper.
#[derive(Clone, Copy, Debug, PartialEq, Eq, Structural)]
pub enum ListAction {
    /// Tell whether the listed directory exists.
    Exists,
    /// Open a directory: the listed one at depth 0, else the one that the last entry names.
    ReadDir { depth: usize },
    /// Report the next entry of the open directory at this depth.
    NextEntry { depth: usize },
    /// Report what the last entry is.
    Metadata,
    /// Delete the file that the last entry names.
    RemoveEntry,
}

/// What came of a [`ListAction`].
#[derive(Debug)]
pub enum ListOutcome {
    /// Whether the directory exists.
    Present(bool),
    /// The directory is open, the entry was deleted or could not be, or no file is being changed
    /// any more.
    Completed,
    /// The next entry.
    Entry(DirEntryPath),
    /// There are no more entries.
    End,
    /// What the entry is.
    Kind(EntryKind),
    /// It failed.
    Failed(StoreError),
}

/// What a [`ListOutcome`] says.
pub enum ListOutcomeView {
    Present(bool),
    Completed,
    Entry(EntryView),
    End,
    Kind(EntryKind),
    Failed(ErrorView),
}

impl View for ListOutcome {
    type V = ListOutcomeView;

    open spec fn view(&self) -> ListOutcomeView {
        match *self {
            ListOutcome::Present(present) => ListOutcomeView::Present(present),
            ListOutcome::Completed => ListOutcomeView::Completed,
            ListOutcome::Entry(entry) => ListOutcomeView::Entry(entry@),
            ListOutcome::End => ListOutcomeView::End,
            ListOutcome::Kind(kind) => ListOutcomeView::Kind(kind),
            ListOutcome::Failed(error) => ListOutcomeView::Failed(error@),
        }
    }
}

/// Where a listing stands: what the outcome of the last action decides.
#[derive(Clone, Copy, Debug, PartialEq, Eq, Structural)]
pub enum ListStage {
    /// It is found out whether the directory exists.
    Checking,
    /// A directory is opened.
    Opening,
    /// The next entry is awaited.
    Reading,
    /// The entry is a trash file, and files are being changed.
    Waiting,
    /// The entry is deleted.
    Discarding,
    /// It is found out what the entry is.
    Inspecting,
    /// The listing is over.
    Over,
}

/// Whether an outcome answers the action that a listing at `stage` asked for.
pub open spec fn answers(stage: ListStage, outcome: ListOutcomeView) -> bool {
    match stage {
        ListStage::Checking => outcome is Present,
        ListStage::Opening => outcome is Completed || outcome is Failed,
        ListStage::Reading => outcome is Entry || outcome is End || outcome is Failed,
        ListStage::Waiting => outcome is Completed,
        ListStage::Discarding => outcome is Completed || outcome is Failed,
        ListStage::Inspecting => outcome is Kind || outcome is Failed,
        ListStage::Over => false,
    }
}

/// What a listing comes to next.
#[derive(Debug)]
pub enum ListStep<T> {
    /// Files are being changed. Go on with [`ListOutcome::Completed`] once one has been.
    Wait,
    /// Do this, and go on with what came of it.
    Perform(ListAction),
    /// The listing is over.
    Finished(Result<T, StoreError>),
}

/// What a [`ListStep`] says, with the result given by its own view.
pub enum ListStepView<T> {
    Wait,
    Perform(ListAction),
    Finished(Result<T, ErrorView>),
}

/// A listing of the keys of one namespace.
pub struct KeyListing {
    base: StorePath,
    dir: StorePath,
    retries: usize,
    keys: Vec<String>,
    stage: ListStage,
    entry: Option<DirEntryPath>,
}

/// What a [`KeyListing`] holds.
pub struct ListingView {
    /// The whole path of the listed directory.
    pub base: PathView,
    /// Its path below the data directory.
    pub dir: PathView,
    /// How often the listing may still start over.
    pub retries: usize,
    /// The keys found so far.
    pub keys: Seq<Seq<char>>,
    pub stage: ListStage,
    /// The last entry.
    pub entry: Option<EntryView>,
}

/// What a list of texts says.
pub open spec fn texts(list: Seq<String>) -> Seq<Seq<char>> {
    Seq::new(list.len(), |i: int| list[i]@)
}

/// What an entry that may be missing says.
pub open spec fn entry_view(entry: Option<DirEntryPath>) -> Option<EntryView> {
    match entry {
        Some(entry) => Some(entry@),
        None => None,
    }
}

/// What a step of a listing of keys says.
pub open spec fn keys_step(step: ListStep<Vec<String>>) -> ListStepView<Seq<Seq<char>>> {
    match step {
        ListStep::Wait => ListStepView::Wait,
        ListStep::Perform(action) => ListStepView::Perform(action),
        ListStep::Finished(Ok(keys)) => ListStepView::Finished(Ok(texts(keys@))),
        ListStep::Finished(Err(error)) => ListStepView::Finished(Err(error@)),
    }
}

impl View for KeyListing {
    type V = ListingView;

    closed spec fn view(&self) -> ListingView {
        ListingView {
            base: self.base@,
            dir: self.dir@,
            retries: self.retries,
            keys: texts(self.keys@),
            stage: self.stage,
            entry: entry_view(self.entry),
        }
    }
}

impl ListingView {
    /// The listing of the directory at `dir`, below the data directory whose whole path is
    /// `data_dir`, at its beginning.
    pub open spec fn start(data_dir: PathView, dir: PathView) -> ListingView {
        ListingView {
            base: data_dir + dir,
            dir,
            retries: LIST_DIR_CONSISTENCY_RETRIES,
            keys: seq![],
            stage: ListStage::Checking,
            entry: None,
        }
    }

    /// Whether there is an entry where one is needed.
    pub open spec fn valid(self) -> bool {
        (self.stage == ListStage::Waiting || self.stage == ListStage::Inspecting)
            ==> self.entry is Some
    }

    /// The listing asks for `action` and stands at `stage`.
    pub open spec fn perform(self, stage: ListStage, action: ListAction) -> (
        ListingView,
        ListStepView<Seq<Seq<char>>>,
    ) {
        (ListingView { stage, ..self }, ListStepView::Perform(action))
    }

    /// The listing goes on to the next entry.
    pub open spec fn next(self) -> (ListingView, ListStepView<Seq<Seq<char>>>) {
        self.perform(ListStage::Reading, ListAction::NextEntry { depth: 0 })
    }

    /// The listing ends with `result`.
    pub open spec fn finish(self, result: Result<Seq<Seq<char>>, ErrorView>) -> (
        ListingView,
        ListStepView<Seq<Seq<char>>>,
    ) {
        (
            ListingView { stage: ListStage::Over, keys: seq![], ..self },
            ListStepView::Finished(result),
        )
    }

    /// The listing does with the last entry what `fate` says.
    pub open spec fn treat(self, fate: EntryFate) -> (
        ListingView,
        ListStepView<Seq<Seq<char>>>,
    ) {
        match fate {
            EntryFate::Inspect => self.perform(ListStage::Inspecting, ListAction::Metadata),
            EntryFate::Skip => self.next(),
            EntryFate::Discard => self.perform(ListStage::Discarding, ListAction::RemoveEntry),
            EntryFate::Wait => (
                ListingView { stage: ListStage::Waiting, ..self },
                ListStepView::Wait,
            ),
        }
    }

    /// The step after an action.
    pub open spec fn resume(self, store: StoreView, outcome: ListOutcomeView) -> (
        ListingView,
        ListStepView<Seq<Seq<char>>>,
    ) {
        match (self.stage, outcome) {
            (ListStage::Checking, ListOutcomeView::Present(true)) => self.perform(
                ListStage::Opening,
                ListAction::ReadDir { depth: 0 },
            ),
            (ListStage::Checking, _) => self.finish(Ok(seq![])),
            (ListStage::Inspecting, ListOutcomeView::Failed(error)) => if error.kind
                == ErrorKind::NotFound && self.retries > 0 {
                ListingView {
                    retries: (self.retries - 1) as usize,
                    keys: seq![],
                    ..self
                }.perform(ListStage::Opening, ListAction::ReadDir { depth: 0 })
            } else {
                self.finish(Err(error))
            },
            (ListStage::Inspecting, ListOutcomeView::Kind(kind)) => match is_key(
                self.entry->0,
                kind,
            ) {
                Err(error) => self.finish(Err(error)),
                Ok(false) => self.next(),
                Ok(true) => match key_of(self.entry->0, self.base) {
                    Err(error) => self.finish(Err(error)),
                    Ok(key) => ListingView { keys: self.keys.push(key), ..self }.next(),
                },
            },
            (ListStage::Discarding, _) => self.next(),
            (ListStage::Waiting, _) => self.treat(
                store.entry_fate(self.dir, self.entry->0.file_name()),
            ),
            (_, ListOutcomeView::Failed(error)) => self.finish(Err(error)),
            (ListStage::Reading, ListOutcomeView::Entry(entry)) => ListingView {
                entry: Some(entry),
                ..self
            }.treat(store.entry_fate(self.dir, entry.file_name())),
            (ListStage::Reading, _) => self.finish(Ok(self.keys)),
            (_, _) => self.next(),
        }
    }
}

impl KeyListing {
    /// Whether there is an entry where one is needed.
    pub open spec fn valid(self) -> bool {
        self@.valid()
    }

    /// Begins to list the keys of a namespace below the directory whose whole path is `data_dir`.
    /// Hands out the first action, whose outcome [`Self::resume`] takes.
    pub fn new(data_dir: StorePath, primary_namespace: &str, secondary_namespace: &str) -> (result:
        Result<(KeyListing, ListAction), StoreError>)
        ensures
            match namespace_fault(primary_namespace@, secondary_namespace@, None) {
                Some(fault) => result is Err && result->Err_0@ == fault_error(
                    primary_namespace@,
                    secondary_namespace@,
                    None,
                    "list"@,
                    fault,
                ),
                None => result is Ok && result->Ok_0.0.valid() && result->Ok_0.0@
                    == ListingView::start(
                    data_dir@,
                    dest_path(primary_namespace@, secondary_namespace@, None),
                ) && result->Ok_0.1 == ListAction::Exists,
            },
    {
        match FilesystemStore::get_checked_dest_file_path(
            primary_namespace,
            secondary_namespace,
            None,
            "list",
        ) {
            Err(error) => Err(error),
            Ok(dir) => {
                let mut base = data_dir;
                base.push_text(primary_namespace);
                base.push_text(secondary_namespace);
                assert(base@ =~= data_dir@ + dir@);
                let listing = KeyListing {
                    base,
                    dir,
                    retries: LIST_DIR_CONSISTENCY_RETRIES,
                    keys: Vec::new(),
                    stage: ListStage::Checking,
                    entry: None,
                };
                assert(listing@.keys =~= seq![]);
                Ok((listing, ListAction::Exists))
            },
        }
    }

    /// The directory that is listed.
    pub fn dir(&self) -> (dir: &StorePath)
        ensures
            dir@ == self@.dir,
    {
        &self.dir
    }

    fn perform(&mut self, stage: ListStage, action: ListAction) -> (step: ListStep<Vec<String>>)
        ensures
            (final(self)@, keys_step(step)) == old(self)@.perform(stage, action),
    {
        self.stage = stage;
        ListStep::Perform(action)
    }

    fn finish(&mut self, error: StoreError) -> (step: ListStep<Vec<String>>)
        ensures
            (final(self)@, keys_step(step)) == old(self)@.finish(Err(error@)),
    {
        self.stage = ListStage::Over;
        self.keys = Vec::new();
        assert(self@.keys =~= seq![]);
        ListStep::Finished(Err(error))
    }

    fn finish_with_keys(&mut self) -> (step: ListStep<Vec<String>>)
        ensures
            (final(self)@, keys_step(step)) == old(self)@.finish(Ok(old(self)@.keys)),
    {
        let mut keys: Vec<String> = Vec::new();
        std::mem::swap(&mut keys, &mut self.keys);
        self.stage = ListStage::Over;
        assert(self@.keys =~= seq![]);
        ListStep::Finished(Ok(keys))
    }

    fn treat(&mut self, fate: EntryFate) -> (step: ListStep<Vec<String>>)
        ensures
            (final(self)@, keys_step(step)) == old(self)@.treat(fate),
    {
        match fate {
            EntryFate::Inspect => self.perform(ListStage::Inspecting, ListAction::Metadata),
            EntryFate::Skip => self.perform(
                ListStage::Reading,
                ListAction::NextEntry { depth: 0 },
            ),
            EntryFate::Discard => self.perform(ListStage::Discarding, ListAction::RemoveEntry),
            EntryFate::Wait => {
                self.stage = ListStage::Waiting;
                ListStep::Wait
            },
        }
    }

    /// Goes on with the listing after an action.
    ///
    /// An entry that vanished between being reported and being looked at means that the directory
    /// changed meanwhile. The listing then starts over, a limited number of times.
    pub fn resume(&mut self, store: &FilesystemStore, outcome: ListOutcome) -> (step: ListStep<
        Vec<String>,
    >)
        requires
            store.valid(),
            old(self).valid(),
            answers(old(self)@.stage, outcome@),
        ensures
            final(self).valid(),
            (final(self)@, keys_step(step)) == old(self)@.resume(store@, outcome@),
    {
        match (self.stage, outcome) {
            (ListStage::Checking, ListOutcome::Present(true)) => self.perform(
                ListStage::Opening,
                ListAction::ReadDir { depth: 0 },
            ),
            (ListStage::Checking, _) => {
                self.keys = Vec::new();
                assert(self@.keys =~= seq![]);
                self.finish_with_keys()
            },
            (ListStage::Inspecting, ListOutcome::Failed(error)) => {
                if error.kind == ErrorKind::NotFound && self.retries > 0 {
                    self.retries = self.retries - 1;
                    self.keys = Vec::new();
                    assert(self@.keys =~= seq![]);
                    self.perform(ListStage::Opening, ListAction::ReadDir { depth: 0 })
                } else {
                    self.finish(error)
                }
            },
            (ListStage::Inspecting, ListOutcome::Kind(kind)) => {
                let entry: &DirEntryPath = self.entry.as_ref().unwrap();
                match dir_entry_is_key(entry, kind) {
                    Err(error) => self.finish(error),
                    Ok(false) => self.perform(
                        ListStage::Reading,
                        ListAction::NextEntry { depth: 0 },
                    ),
                    Ok(true) => match get_key_from_dir_entry_path(entry, &self.base) {
                        Err(error) => self.finish(error),
                        Ok(key) => {
                            self.keys.push(key);
                            assert(self@.keys =~= old(self)@.keys.push(key@));
                            self.perform(ListStage::Reading, ListAction::NextEntry { depth: 0 })
                        },
                    },
                }
            },
            (ListStage::Discarding, _) => self.perform(
                ListStage::Reading,
                ListAction::NextEntry { depth: 0 },
            ),
            (ListStage::Waiting, _) => {
                let entry: &DirEntryPath = self.entry.as_ref().unwrap();
                let fate = store.dir_entry_is_store_artifact(&self.dir, &entry.file_name());
                self.treat(fate)
            },
            (_, ListOutcome::Failed(error)) => self.finish(error),
            (ListStage::Reading, ListOutcome::Entry(entry)) => {
                let fate = store.dir_entry_is_store_artifact(&self.dir, &entry.file_name());
                self.entry = Some(entry);
                self.treat(fate)
            },
            (ListStage::Reading, _) => self.finish_with_keys(),
            (_, _) => self.perform(ListStage::Reading, ListAction::NextEntry { depth: 0 }),
        }
    }
}

} // verus!
