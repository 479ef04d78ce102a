//! Listing every key of the store with its namespaces.

use crate::error::{ErrorView, StoreError};
use crate::listing::{
    DirEntryPath, EntryFate, EntryKind, EntryView, ListAction, ListOutcome, ListOutcomeView,
    ListStage, ListStep, ListStepView,
};
use crate::listing::{answers, entry_view, is_key, key_of, listing_error};
use crate::listing::{dir_entry_is_key, get_key_from_dir_entry_path, new_listing_error};
use crate::path::{PathView, StorePath};
use crate::store::{FilesystemStore, StoreView};
use vstd::prelude::*;

verus! {

/// A key with its primary and secondary namespace.
pub type KeyTriple = (Seq<char>, Seq<char>, Seq<char>);

/// A listing of all keys. Directories are entered as deep as namespaces go.
pub struct AllKeysListing {
    base: StorePath,
    keys: Vec<(String, String, String)>,
    stage: ListStage,
    dirs: Vec<DirEntryPath>,
    entry: Option<DirEntryPath>,
}

/// What an [`AllKeysListing`] holds.
pub struct AllKeysView {
    /// The whole path of the data directory.
    pub base: PathView,
    /// The keys found so far.
    pub keys: Seq<KeyTriple>,
    pub stage: ListStage,
    /// The entries of the directories that were entered, outermost first.
    pub dirs: Seq<EntryView>,
    /// The last entry.
    pub entry: Option<EntryView>,
}

/// What a list of keys with their namespaces says.
pub open spec fn triples(list: Seq<(String, String, String)>) -> Seq<KeyTriple> {
    Seq::new(list.len(), |i: int| (list[i].0@, list[i].1@, list[i].2@))
}

/// What a step of a listing of all keys says.
pub open spec fn all_keys_step(step: ListStep<Vec<(String, String, String)>>) -> ListStepView<
    Seq<KeyTriple>,
> {
    match step {
        ListStep::Wait => ListStepView::Wait,
        ListStep::Perform(action) => ListStepView::Perform(action),
        ListStep::Finished(Ok(keys)) => ListStepView::Finished(Ok(triples(keys@))),
        ListStep::Finished(Err(error)) => ListStepView::Finished(Err(error@)),
    }
}

/// The whole path of the directory that the entries at the given depth lie in.
pub open spec fn base_of(base: PathView, dirs: Seq<EntryView>, depth: int) -> PathView {
    if 0 < depth <= dirs.len() {
        dirs[depth - 1].path
    } else {
        base
    }
}

/// The namespace that the entered directory at the given depth stands for, which is empty if none
/// was entered.
pub open spec fn namespace_of(base: PathView, dirs: Seq<EntryView>, depth: int) -> Result<
    Seq<char>,
    ErrorView,
> {
    if depth < dirs.len() {
        key_of(dirs[depth], base_of(base, dirs, depth))
    } else {
        Ok(seq![])
    }
}

/// The key with its namespaces that a file below the entered directories stands for.
pub open spec fn triple_of(base: PathView, dirs: Seq<EntryView>, entry: EntryView) -> Result<
    KeyTriple,
    ErrorView,
> {
    match namespace_of(base, dirs, 0) {
        Err(error) => Err(error),
        Ok(primary_namespace) => match namespace_of(base, dirs, 1) {
            Err(error) => Err(error),
            Ok(secondary_namespace) => match key_of(
                entry,
                base_of(base, dirs, dirs.len() as int),
            ) {
                Err(error) => Err(error),
                Ok(key) => Ok((primary_namespace, secondary_namespace, key)),
            },
        },
    }
}

/// The path of the directory that was entered last.
pub open spec fn dirs_path(dirs: Seq<EntryView>) -> PathView {
    Seq::new(dirs.len(), |i: int| dirs[i].file_name())
}

impl View for AllKeysListing {
    type V = AllKeysView;

    closed spec fn view(&self) -> AllKeysView {
        AllKeysView {
            base: self.base@,
            keys: triples(self.keys@),
            stage: self.stage,
            dirs: Seq::new(self.dirs@.len(), |i: int| self.dirs@[i]@),
            entry: entry_view(self.entry),
        }
    }
}

impl AllKeysView {
    /// The listing at its beginning.
    pub open spec fn start(base: PathView) -> AllKeysView {
        AllKeysView { base, keys: seq![], stage: ListStage::Checking, dirs: seq![], entry: None }
    }

    /// Whether no directory was entered that lies below all namespaces, and there is an entry
    /// where one is needed.
    pub open spec fn valid(self) -> bool {
        &&& self.dirs.len() <= 2
        &&& (self.stage == ListStage::Waiting || self.stage == ListStage::Inspecting)
            ==> self.entry is Some
    }

    /// The listing asks for `action` and stands at `stage`.
    pub open spec fn perform(self, stage: ListStage, action: ListAction) -> (
        AllKeysView,
        ListStepView<Seq<KeyTriple>>,
    ) {
        (AllKeysView { stage, ..self }, ListStepView::Perform(action))
    }

    /// The listing goes on to the next entry of the directory that was entered last.
    pub open spec fn next(self) -> (AllKeysView, ListStepView<Seq<KeyTriple>>) {
        self.perform(
            ListStage::Reading,
            ListAction::NextEntry { depth: self.dirs.len() as usize },
        )
    }

    /// The listing ends with `result`.
    pub open spec fn finish(self, result: Result<Seq<KeyTriple>, ErrorView>) -> (
        AllKeysView,
        ListStepView<Seq<KeyTriple>>,
    ) {
        (
            AllKeysView { stage: ListStage::Over, keys: seq![], ..self },
            ListStepView::Finished(result),
        )
    }

    /// The listing does with the last entry what `fate` says.
    pub open spec fn treat(self, fate: EntryFate) -> (AllKeysView, ListStepView<Seq<KeyTriple>>) {
        match fate {
            EntryFate::Inspect => self.perform(ListStage::Inspecting, ListAction::Metadata),
            EntryFate::Skip => self.next(),
            EntryFate::Discard => self.perform(ListStage::Discarding, ListAction::RemoveEntry),
            EntryFate::Wait => (
                AllKeysView { stage: ListStage::Waiting, ..self },
                ListStepView::Wait,
            ),
        }
    }

    /// The last entry turned out to be of the given kind: a file is a key, and a directory is
    /// entered, unless it lies below both namespaces.
    pub open spec fn inspect(self, kind: EntryKind) -> (
        AllKeysView,
        ListStepView<Seq<KeyTriple>>,
    ) {
        match is_key(self.entry->0, kind) {
            Err(error) => self.finish(Err(error)),
            Ok(true) => match triple_of(self.base, self.dirs, self.entry->0) {
                Err(error) => self.finish(Err(error)),
                Ok(triple) => AllKeysView { keys: self.keys.push(triple), ..self }.next(),
            },
            Ok(false) => if self.dirs.len() < 2 {
                AllKeysView {
                    dirs: self.dirs.push(self.entry->0),
                    entry: None,
                    ..self
                }.perform(
                    ListStage::Opening,
                    ListAction::ReadDir { depth: (self.dirs.len() + 1) as usize },
                )
            } else {
                self.finish(
                    Err(
                        listing_error(
                            self.entry->0,
                            "of"@,
                            "only two levels of namespaces are supported"@,
                        ),
                    ),
                )
            },
        }
    }

    /// The step after an action.
    pub open spec fn resume(self, store: StoreView, outcome: ListOutcomeView) -> (
        AllKeysView,
        ListStepView<Seq<KeyTriple>>,
    ) {
        match (self.stage, outcome) {
            (ListStage::Checking, ListOutcomeView::Present(true)) => self.perform(
                ListStage::Opening,
                ListAction::ReadDir { depth: 0 },
            ),
            (ListStage::Checking, _) => self.finish(Ok(seq![])),
            (ListStage::Discarding, _) => self.next(),
            (ListStage::Waiting, _) => self.treat(
                store.entry_fate(dirs_path(self.dirs), self.entry->0.file_name()),
            ),
            (_, ListOutcomeView::Failed(error)) => self.finish(Err(error)),
            (ListStage::Inspecting, ListOutcomeView::Kind(kind)) => self.inspect(kind),
            (ListStage::Reading, ListOutcomeView::Entry(entry)) => AllKeysView {
                entry: Some(entry),
                ..self
            }.treat(store.entry_fate(dirs_path(self.dirs), entry.file_name())),
            (ListStage::Reading, _) => if self.dirs.len() == 0 {
                self.finish(Ok(self.keys))
            } else {
                AllKeysView { dirs: self.dirs.drop_last(), ..self }.next()
            },
            (_, _) => self.next(),
        }
    }
}

impl AllKeysListing {
    /// Whether no directory was entered that lies below all namespaces, and there is an entry
    /// where one is needed.
    pub open spec fn valid(self) -> bool {
        self@.valid()
    }

    /// Begins to list all keys below the directory whose whole path is `data_dir`. Hands out the
    /// first action, whose outcome [`Self::resume`] takes.
    pub fn new(data_dir: StorePath) -> (begun: (AllKeysListing, ListAction))
        ensures
            begun.0.valid(),
            begun.0@ == AllKeysView::start(data_dir@),
            begun.1 == ListAction::Exists,
    {
        let listing = AllKeysListing {
            base: data_dir,
            keys: Vec::new(),
            stage: ListStage::Checking,
            dirs: Vec::new(),
            entry: None,
        };
        assert(listing@.keys =~= seq![]);
        assert(listing@.dirs =~= seq![]);
        (listing, ListAction::Exists)
    }

    fn perform(&mut self, stage: ListStage, action: ListAction) -> (step: ListStep<
        Vec<(String, String, String)>,
    >)
        ensures
            (final(self)@, all_keys_step(step)) == old(self)@.perform(stage, action),
    {
        self.stage = stage;
        assert(self@.dirs =~= old(self)@.dirs);
        ListStep::Perform(action)
    }

    fn next(&mut self) -> (step: ListStep<Vec<(String, String, String)>>)
        ensures
            (final(self)@, all_keys_step(step)) == old(self)@.next(),
    {
        let depth: usize = self.dirs.len();
        self.perform(ListStage::Reading, ListAction::NextEntry { depth })
    }

    fn finish(&mut self, error: StoreError) -> (step: ListStep<Vec<(String, String, String)>>)
        ensures
            (final(self)@, all_keys_step(step)) == old(self)@.finish(Err(error@)),
    {
        self.stage = ListStage::Over;
        self.keys = Vec::new();
        assert(self@.keys =~= seq![]);
        assert(self@.dirs =~= old(self)@.dirs);
        ListStep::Finished(Err(error))
    }

    fn finish_with_keys(&mut self) -> (step: ListStep<Vec<(String, String, String)>>)
        ensures
            (final(self)@, all_keys_step(step)) == old(self)@.finish(Ok(old(self)@.keys)),
    {
        let mut keys: Vec<(String, String, String)> = Vec::new();
        std::mem::swap(&mut keys, &mut self.keys);
        self.stage = ListStage::Over;
        assert(self@.keys =~= seq![]);
        assert(self@.dirs =~= old(self)@.dirs);
        ListStep::Finished(Ok(keys))
    }

    fn treat(&mut self, fate: EntryFate) -> (step: ListStep<Vec<(String, String, String)>>)
        ensures
            (final(self)@, all_keys_step(step)) == old(self)@.treat(fate),
    {
        match fate {
            EntryFate::Inspect => self.perform(ListStage::Inspecting, ListAction::Metadata),
            EntryFate::Skip => self.next(),
            EntryFate::Discard => self.perform(ListStage::Discarding, ListAction::RemoveEntry),
            EntryFate::Wait => {
                self.stage = ListStage::Waiting;
                assert(self@.dirs =~= old(self)@.dirs);
                ListStep::Wait
            },
        }
    }

    /// The path of the directory that was entered last.
    fn current_dir(&self) -> (dir: StorePath)
        ensures
            dir@ == dirs_path(self@.dirs),
    {
        let mut dir = StorePath::root();
        let mut i: usize = 0;
        while i < self.dirs.len()
            invariant
                i <= self.dirs@.len(),
                self@.dirs.len() == self.dirs@.len(),
                dir@ == dirs_path(self@.dirs).take(i as int),
            decreases self.dirs@.len() - i,
        {
            dir.push_bytes(self.dirs[i].file_name());
            i += 1;
            assert(dirs_path(self@.dirs).take(i as int) =~= dirs_path(self@.dirs).take(i - 1).push(
                self@.dirs[i - 1].file_name(),
            ));
        }
        assert(dirs_path(self@.dirs).take(i as int) =~= dirs_path(self@.dirs));
        dir
    }

    /// The key or namespace that an entry at the given depth stands for.
    fn key_at(&self, entry: &DirEntryPath, depth: usize) -> (result: Result<String, StoreError>)
        ensures
            match key_of(entry@, base_of(self@.base, self@.dirs, depth as int)) {
                Ok(key) => result is Ok && result->Ok_0@ == key,
                Err(error) => result is Err && result->Err_0@ == error,
            },
    {
        if 0 < depth && depth <= self.dirs.len() {
            assert(self@.dirs[depth - 1] == self.dirs@[depth - 1]@);
            get_key_from_dir_entry_path(entry, &self.dirs[depth - 1].path)
        } else {
            get_key_from_dir_entry_path(entry, &self.base)
        }
    }

    /// The namespace that the entered directory at the given depth stands for.
    fn namespace(&self, depth: usize) -> (result: Result<String, StoreError>)
        ensures
            match namespace_of(self@.base, self@.dirs, depth as int) {
                Ok(namespace) => result is Ok && result->Ok_0@ == namespace,
                Err(error) => result is Err && result->Err_0@ == error,
            },
    {
        if depth < self.dirs.len() {
            assert(self@.dirs[depth as int] == self.dirs@[depth as int]@);
            self.key_at(&self.dirs[depth], depth)
        } else {
            let namespace = String::new();
            assert(namespace@ =~= seq![]);
            Ok(namespace)
        }
    }

    /// The key with its namespaces that a file below the entered directories stands for.
    fn triple(&self, entry: &DirEntryPath) -> (result: Result<(String, String, String), StoreError>)
        ensures
            match triple_of(self@.base, self@.dirs, entry@) {
                Ok(triple) => {
                    &&& result is Ok
                    &&& result->Ok_0.0@ == triple.0
                    &&& result->Ok_0.1@ == triple.1
                    &&& result->Ok_0.2@ == triple.2
                },
                Err(error) => result is Err && result->Err_0@ == error,
            },
    {
        match self.namespace(0) {
            Err(error) => Err(error),
            Ok(primary_namespace) => match self.namespace(1) {
                Err(error) => Err(error),
                Ok(secondary_namespace) => match self.key_at(entry, self.dirs.len()) {
                    Err(error) => Err(error),
                    Ok(key) => Ok((primary_namespace, secondary_namespace, key)),
                },
            },
        }
    }

    /// Takes the step after the last entry turned out to be of the given kind.
    fn inspect(&mut self, kind: EntryKind) -> (step: ListStep<Vec<(String, String, String)>>)
        requires
            old(self).valid(),
            old(self)@.entry is Some,
        ensures
            (final(self)@, all_keys_step(step)) == old(self)@.inspect(kind),
    {
        let entry: &DirEntryPath = self.entry.as_ref().unwrap();
        match dir_entry_is_key(entry, kind) {
            Err(error) => self.finish(error),
            Ok(true) => match self.triple(entry) {
                Err(error) => self.finish(error),
                Ok(triple) => {
                    self.keys.push(triple);
                    assert(self@.keys =~= old(self)@.keys.push((triple.0@, triple.1@, triple.2@)));
                    assert(self@.dirs =~= old(self)@.dirs);
                    self.next()
                },
            },
            Ok(false) => {
                if self.dirs.len() < 2 {
                    let depth: usize = self.dirs.len() + 1;
                    let dir: DirEntryPath = self.entry.take().unwrap();
                    self.dirs.push(dir);
                    assert(self@.dirs =~= old(self)@.dirs.push(dir@));
                    self.perform(ListStage::Opening, ListAction::ReadDir { depth })
                } else {
                    let error = new_listing_error(
                        entry,
                        "of",
                        "only two levels of namespaces are supported",
                    );
                    self.finish(error)
                }
            },
        }
    }

    /// Goes on with the listing after an action.
    pub fn resume(&mut self, store: &FilesystemStore, outcome: ListOutcome) -> (step: ListStep<
        Vec<(String, String, String)>,
    >)
        requires
            store.valid(),
            old(self).valid(),
            answers(old(self)@.stage, outcome@),
        ensures
            final(self).valid(),
            (final(self)@, all_keys_step(step)) == old(self)@.resume(store@, outcome@),
    {
        match (self.stage, outcome) {
            (ListStage::Checking, ListOutcome::Present(true)) => self.perform(
                ListStage::Opening,
                ListAction::ReadDir { depth: 0 },
            ),
            (ListStage::Checking, _) => {
                self.keys = Vec::new();
                assert(self@.keys =~= seq![]);
                assert(self@.dirs =~= old(self)@.dirs);
                self.finish_with_keys()
            },
            (ListStage::Discarding, _) => self.next(),
            (ListStage::Waiting, _) => {
                let dir = self.current_dir();
                let entry: &DirEntryPath = self.entry.as_ref().unwrap();
                let fate = store.dir_entry_is_store_artifact(&dir, &entry.file_name());
                self.treat(fate)
            },
            (_, ListOutcome::Failed(error)) => self.finish(error),
            (ListStage::Inspecting, ListOutcome::Kind(kind)) => self.inspect(kind),
            (ListStage::Reading, ListOutcome::Entry(entry)) => {
                let dir = self.current_dir();
                let fate = store.dir_entry_is_store_artifact(&dir, &entry.file_name());
                self.entry = Some(entry);
                assert(self@.dirs =~= old(self)@.dirs);
                self.treat(fate)
            },
            (ListStage::Reading, _) => {
                if self.dirs.len() == 0 {
                    self.finish_with_keys()
                } else {
                    self.dirs.pop();
                    assert(self@.dirs =~= old(self)@.dirs.drop_last());
                    self.next()
                }
            },
            (_, _) => self.next(),
        }
    }
}

} // verus!
