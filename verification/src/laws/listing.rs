//! Laws on what a listing of one namespace gives.

use crate::error::{ErrorKind, ErrorView};
use crate::laws::names::law_artifacts_are_known_by_their_ending;
use crate::laws::names::{dotless, ends_in, lemma_dotless, lemma_key_name};
use crate::listing::{
    EntryFate, EntryKind, EntryView, ListAction, ListOutcomeView, ListStage, ListStepView,
    ListingView, LIST_DIR_CONSISTENCY_RETRIES,
};
use crate::listing::{answers, is_key, is_text, key_of, name_text};
use crate::locks::{any_writing, is_trash_of, pending_trash};
use crate::namespace::valid_kvstore_str;
use crate::path::{Artifact, PathView};
use crate::path::{artifact_of, artifact_path};
use crate::state::{PendingDurability, Platform};
use crate::store::StoreView;
use crate::text::printable_text;
use vstd::prelude::*;
use vstd::utf8::{decode_utf8, decode_utf8_encode_utf8, encode_utf8, valid_utf8};
use vstd::utf8::{encode_utf8_decode_utf8, encode_utf8_valid_utf8};

verus! {

/// An entry of a directory and what it is.
pub struct DirItem {
    pub entry: EntryView,
    pub kind: EntryKind,
}

/// The keys that an entry adds to a listing of the directory whose whole path is `base`: one for a
/// file, unless it is an artifact.
pub open spec fn item_keys(base: PathView, item: DirItem) -> Result<Seq<Seq<char>>, ErrorView> {
    if artifact_of(item.entry.file_name()) is Some {
        Ok(seq![])
    } else {
        match is_key(item.entry, item.kind) {
            Err(error) => Err(error),
            Ok(false) => Ok(seq![]),
            Ok(true) => match key_of(item.entry, base) {
                Err(error) => Err(error),
                Ok(key) => Ok(seq![key]),
            },
        }
    }
}

/// The one list followed by the other, or the first error.
pub open spec fn joined<T>(
    first: Result<Seq<T>, ErrorView>,
    second: Result<Seq<T>, ErrorView>,
) -> Result<Seq<T>, ErrorView> {
    match first {
        Err(error) => Err(error),
        Ok(front) => match second {
            Err(error) => Err(error),
            Ok(back) => Ok(front + back),
        },
    }
}

/// The keys of the directory whose whole path is `base`, in the order of its entries, or the first
/// error.
pub open spec fn dir_keys(base: PathView, items: Seq<DirItem>) -> Result<
    Seq<Seq<char>>,
    ErrorView,
>
    decreases items.len(),
{
    if items.len() == 0 {
        Ok(seq![])
    } else {
        joined(item_keys(base, items[0]), dir_keys(base, items.drop_first()))
    }
}

/// A listing of a directory, and a caller who answers what the listing asks for. The directory does
/// not change while it is read, but entries may vanish before they are looked at, so that it is
/// opened anew; what it holds whenever it is opened is a list of its own.
pub struct Walk {
    pub listing: ListingView,
    /// What the listing came to last.
    pub step: ListStepView<Seq<Seq<char>>>,
    /// What the last entry is.
    pub kind: EntryKind,
    /// The entries that were not reported yet.
    pub ahead: Seq<DirItem>,
    /// How often the directory was opened.
    pub opened: nat,
    /// How often the listing had to wait.
    pub waits: nat,
}

/// What a listing is told, with the store at that time.
pub struct Report {
    pub store: StoreView,
    pub outcome: ListOutcomeView,
}

/// Whether an entry was gone when it was looked at.
pub open spec fn vanished(outcome: ListOutcomeView) -> bool {
    outcome is Failed && outcome->Failed_0.kind == ErrorKind::NotFound
}

/// How many reports it takes to open and read a directory as often as it is listed here.
pub open spec fn reports_for(passes: Seq<Seq<DirItem>>) -> nat
    decreases passes.len(),
{
    if passes.len() == 0 {
        0
    } else {
        2 + 2 * passes.last().len() + reports_for(passes.drop_last())
    }
}

impl Walk {
    /// Whether a report is the truth about the action that the listing asked for. There is no other
    /// directory than the listed one.
    pub open spec fn allows(self, report: Report) -> bool {
        match self.step {
            ListStepView::Wait => report.outcome is Completed,
            ListStepView::Perform(ListAction::Exists) => report.outcome
                == ListOutcomeView::Present(true),
            ListStepView::Perform(ListAction::ReadDir { depth }) => depth == 0
                && report.outcome is Completed,
            ListStepView::Perform(ListAction::NextEntry { depth }) => depth == 0
                && report.outcome == if self.ahead.len() > 0 {
                ListOutcomeView::Entry(self.ahead[0].entry)
            } else {
                ListOutcomeView::End
            },
            ListStepView::Perform(ListAction::Metadata) => report.outcome
                == ListOutcomeView::Kind(self.kind) || (vanished(report.outcome)
                && self.listing.retries > 0),
            ListStepView::Perform(ListAction::RemoveEntry) => report.outcome is Completed
                || report.outcome is Failed,
            ListStepView::Finished(_) => false,
        }
    }

    /// The listing after a report.
    pub open spec fn next(self, passes: Seq<Seq<DirItem>>, report: Report) -> Walk {
        let (listing, step) = self.listing.resume(report.store, report.outcome);
        match self.step {
            ListStepView::Wait => Walk { listing, step, waits: self.waits + 1, ..self },
            ListStepView::Perform(ListAction::ReadDir { .. }) => Walk {
                listing,
                step,
                ahead: passes[self.opened as int],
                opened: self.opened + 1,
                ..self
            },
            ListStepView::Perform(ListAction::NextEntry { .. }) => if self.ahead.len() > 0 {
                Walk {
                    listing,
                    step,
                    kind: self.ahead[0].kind,
                    ahead: self.ahead.drop_first(),
                    ..self
                }
            } else {
                Walk { listing, step, ..self }
            },
            _ => Walk { listing, step, ..self },
        }
    }

    /// The listing after some reports.
    pub open spec fn after(self, passes: Seq<Seq<DirItem>>, reports: Seq<Report>) -> Walk
        decreases reports.len(),
    {
        if reports.len() == 0 {
            self
        } else {
            self.after(passes, reports.drop_last()).next(passes, reports.last())
        }
    }

    /// Whether the reports are the truth about what the listing asked for.
    pub open spec fn allows_all(self, passes: Seq<Seq<DirItem>>, reports: Seq<Report>) -> bool
        decreases reports.len(),
    {
        reports.len() == 0 || {
            &&& self.allows_all(passes, reports.drop_last())
            &&& self.after(passes, reports.drop_last()).allows(reports.last())
        }
    }

    /// The listing at its beginning.
    pub open spec fn start(data_dir: PathView, dir: PathView, kind: EntryKind) -> Walk {
        Walk {
            listing: ListingView::start(data_dir, dir),
            step: ListStepView::Perform(ListAction::Exists),
            kind,
            ahead: seq![],
            opened: 0,
            waits: 0,
        }
    }

    /// What holds of the listing at every stage: what it has found and what lies ahead make up what
    /// the directory holds, and it asks for what it awaits.
    spec fn on_track(self, passes: Seq<Seq<DirItem>>) -> bool {
        let base = self.listing.base;
        let found = Ok(self.listing.keys);
        let all = dir_keys(base, passes[self.opened - 1]);
        let current = DirItem { entry: self.listing.entry->0, kind: self.kind };
        &&& self.listing.stage == ListStage::Checking || self.listing.stage == ListStage::Opening
            || self.opened > 0
        &&& self.opened + self.listing.retries == if self.listing.stage == ListStage::Checking
            || self.listing.stage == ListStage::Opening {
            10int
        } else {
            11
        }
        &&& match self.listing.stage {
            ListStage::Checking => {
                &&& self.step == ListStepView::<Seq<Seq<char>>>::Perform(ListAction::Exists)
                &&& self.listing.keys.len() == 0
                &&& self.opened == 0
            },
            ListStage::Opening => {
                &&& self.step == ListStepView::<Seq<Seq<char>>>::Perform(
                    ListAction::ReadDir { depth: 0 },
                )
                &&& self.listing.keys.len() == 0
            },
            ListStage::Reading => {
                &&& self.step == ListStepView::<Seq<Seq<char>>>::Perform(
                    ListAction::NextEntry { depth: 0 },
                )
                &&& joined(found, dir_keys(base, self.ahead)) == all
            },
            ListStage::Waiting => {
                &&& self.step is Wait
                &&& self.listing.entry is Some
                &&& artifact_of(current.entry.file_name()) is Some
                &&& joined(found, dir_keys(base, self.ahead)) == all
            },
            ListStage::Discarding => {
                &&& self.step == ListStepView::<Seq<Seq<char>>>::Perform(ListAction::RemoveEntry)
                &&& self.listing.entry is Some
                &&& artifact_of(current.entry.file_name()) is Some
                &&& joined(found, dir_keys(base, self.ahead)) == all
            },
            ListStage::Inspecting => {
                &&& self.step == ListStepView::<Seq<Seq<char>>>::Perform(ListAction::Metadata)
                &&& self.listing.entry is Some
                &&& artifact_of(current.entry.file_name()) is None
                &&& joined(found, joined(item_keys(base, current), dir_keys(base, self.ahead)))
                    == all
            },
            ListStage::Over => self.step == ListStepView::Finished(all),
        }
    }

    /// How many reports may still come, those not counted that end a wait.
    spec fn reports_left(self) -> nat {
        match self.listing.stage {
            ListStage::Checking => 1,
            ListStage::Opening => 0,
            ListStage::Reading => 1 + 2 * self.ahead.len(),
            ListStage::Waiting | ListStage::Discarding | ListStage::Inspecting => 2 + 2
                * self.ahead.len(),
            ListStage::Over => 0,
        }
    }
}

/// A report keeps a listing on track.
proof fn lemma_next_on_track(walk: Walk, passes: Seq<Seq<DirItem>>, report: Report)
    requires
        passes.len() == 11,
        walk.on_track(passes),
        walk.allows(report),
    ensures
        walk.next(passes, report).on_track(passes),
        walk.next(passes, report).listing.base == walk.listing.base,
        walk.next(passes, report).reports_left() + 1 + walk.waits + reports_for(
            passes.take(walk.opened as int),
        ) <= walk.reports_left() + walk.next(passes, report).waits + reports_for(
            passes.take(walk.next(passes, report).opened as int),
        ),
{
    let base = walk.listing.base;
    match walk.listing.stage {
        ListStage::Opening => {
            let all = dir_keys(base, passes[walk.opened as int]);
            let opened = passes.take((walk.opened + 1) as int);
            assert(opened.drop_last() =~= passes.take(walk.opened as int));
            assert(opened.last() == passes[walk.opened as int]);
            if all is Ok {
                assert(walk.listing.keys + all->Ok_0 =~= all->Ok_0);
            }
        },
        ListStage::Reading => {
            if walk.ahead.len() > 0 {
                let rest = dir_keys(base, walk.ahead.drop_first());
                if rest is Ok {
                    assert(Seq::<Seq<char>>::empty() + rest->Ok_0 =~= rest->Ok_0);
                }
            } else {
                assert(walk.listing.keys + Seq::<Seq<char>>::empty() =~= walk.listing.keys);
            }
        },
        ListStage::Inspecting => {
            let current = DirItem { entry: walk.listing.entry->0, kind: walk.kind };
            if item_keys(base, current) is Ok && dir_keys(base, walk.ahead) is Ok {
                let more = item_keys(base, current)->Ok_0;
                let rest = dir_keys(base, walk.ahead)->Ok_0;
                assert(walk.listing.keys + (more + rest) =~= (walk.listing.keys + more) + rest);
                assert(walk.listing.keys + Seq::<Seq<char>>::empty() =~= walk.listing.keys);
                if more.len() > 0 {
                    assert(walk.listing.keys.push(more[0]) =~= walk.listing.keys + more);
                }
            }
        },
        _ => {},
    }
}

/// Reports keep a listing on track.
proof fn lemma_after_on_track(walk: Walk, passes: Seq<Seq<DirItem>>, reports: Seq<Report>)
    requires
        passes.len() == 11,
        walk.on_track(passes),
        walk.allows_all(passes, reports),
    ensures
        walk.after(passes, reports).on_track(passes),
        walk.after(passes, reports).listing.base == walk.listing.base,
        walk.after(passes, reports).reports_left() + reports.len() + walk.waits + reports_for(
            passes.take(walk.opened as int),
        ) <= walk.reports_left() + walk.after(passes, reports).waits + reports_for(
            passes.take(walk.after(passes, reports).opened as int),
        ),
    decreases reports.len(),
{
    if reports.len() > 0 {
        lemma_after_on_track(walk, passes, reports.drop_last());
        lemma_next_on_track(walk.after(passes, reports.drop_last()), passes, reports.last());
    }
}

/// A listing that is told the truth about whatever it asks for gives exactly the keys of the files
/// that are no artifacts and that the directory held when it was last opened, in the order in which
/// the directory reports them. If an entry is neither file nor directory, or a file's name is no
/// key, the first such entry is the error that the listing gives instead.
pub proof fn law_listing_gives_exactly_the_keys(
    data_dir: PathView,
    dir: PathView,
    kind: EntryKind,
    passes: Seq<Seq<DirItem>>,
    reports: Seq<Report>,
)
    requires
        passes.len() == 11,
        Walk::start(data_dir, dir, kind).allows_all(passes, reports),
    ensures
        ({
            let walk = Walk::start(data_dir, dir, kind).after(passes, reports);
            walk.step is Finished ==> walk.opened > 0 && walk.step == ListStepView::Finished(
                dir_keys(data_dir + dir, passes[walk.opened - 1]),
            )
        }),
{
    lemma_after_on_track(Walk::start(data_dir, dir, kind), passes, reports);
}

/// A listing never asks for what cannot be answered: at all times it is over, waits, or asks for
/// something about the listed directory or about an entry that was reported. And it takes every
/// true answer.
pub proof fn law_listing_can_always_go_on(
    data_dir: PathView,
    dir: PathView,
    kind: EntryKind,
    passes: Seq<Seq<DirItem>>,
    reports: Seq<Report>,
    report: Report,
)
    requires
        passes.len() == 11,
        Walk::start(data_dir, dir, kind).allows_all(passes, reports),
    ensures
        ({
            let walk = Walk::start(data_dir, dir, kind).after(passes, reports);
            &&& walk.listing.valid()
            &&& walk.allows(report) ==> answers(walk.listing.stage, report.outcome)
            &&& match walk.step {
                ListStepView::Perform(ListAction::ReadDir { depth }) => depth == 0,
                ListStepView::Perform(ListAction::NextEntry { depth }) => depth == 0,
                ListStepView::Perform(ListAction::Metadata) => walk.listing.entry is Some,
                ListStepView::Perform(ListAction::RemoveEntry) => walk.listing.entry is Some,
                _ => true,
            }
        }),
{
    lemma_after_on_track(Walk::start(data_dir, dir, kind), passes, reports);
}

/// Every action that a listing hands out is the one that it then awaits the outcome of, whatever
/// came before: it opens the listed directory, asks for that directory's next entry, looks at an
/// entry or deletes it. It waits and ends where it says so.
pub proof fn law_listing_asks_for_what_it_awaits(
    listing: ListingView,
    store: StoreView,
    outcome: ListOutcomeView,
)
    requires
        answers(listing.stage, outcome),
    ensures
        ({
            let (next, step) = listing.resume(store, outcome);
            match next.stage {
                ListStage::Checking => false,
                ListStage::Opening => step == ListStepView::<Seq<Seq<char>>>::Perform(
                    ListAction::ReadDir { depth: 0 },
                ),
                ListStage::Reading => step == ListStepView::<Seq<Seq<char>>>::Perform(
                    ListAction::NextEntry { depth: 0 },
                ),
                ListStage::Waiting => step is Wait,
                ListStage::Discarding => step == ListStepView::<Seq<Seq<char>>>::Perform(
                    ListAction::RemoveEntry,
                ),
                ListStage::Inspecting => step == ListStepView::<Seq<Seq<char>>>::Perform(
                    ListAction::Metadata,
                ),
                ListStage::Over => step is Finished,
            }
        }),
{
}

/// A listing ends: besides the first report and those that end a wait it takes, each time that the
/// directory is opened, at most two reports for each entry and two more. The directory is opened
/// eleven times at most.
pub proof fn law_listing_ends(
    data_dir: PathView,
    dir: PathView,
    kind: EntryKind,
    passes: Seq<Seq<DirItem>>,
    reports: Seq<Report>,
)
    requires
        passes.len() == 11,
        Walk::start(data_dir, dir, kind).allows_all(passes, reports),
    ensures
        ({
            let walk = Walk::start(data_dir, dir, kind).after(passes, reports);
            &&& walk.opened <= 11
            &&& reports.len() <= 1 + reports_for(passes.take(walk.opened as int)) + walk.waits
        }),
{
    assert(reports_for(passes.take(0)) == 0);
    lemma_after_on_track(Walk::start(data_dir, dir, kind), passes, reports);
}

/// What a listing does when what it asked for fails; it takes every such answer. Where there is no
/// directory, there are no keys. A directory that cannot be opened or read ends
/// it with that failure. An entry that vanished makes it open the directory anew, with nothing
/// found and one retry less, as long as there are retries; any other failure to look at an entry
/// ends it. That a trash file could not be deleted does not matter.
pub proof fn law_listing_answers_failures(
    data_dir: PathView,
    dir: PathView,
    kind: EntryKind,
    passes: Seq<Seq<DirItem>>,
    reports: Seq<Report>,
    store: StoreView,
    error: ErrorView,
)
    requires
        passes.len() == 11,
        Walk::start(data_dir, dir, kind).allows_all(passes, reports),
    ensures
        ({
            let walk = Walk::start(data_dir, dir, kind).after(passes, reports);
            let (next, step) = walk.listing.resume(store, ListOutcomeView::Failed(error));
            &&& match walk.step {
                ListStepView::Perform(ListAction::Exists) => answers(
                    walk.listing.stage,
                    ListOutcomeView::Present(false),
                ),
                ListStepView::Perform(_) => answers(
                    walk.listing.stage,
                    ListOutcomeView::Failed(error),
                ),
                _ => true,
            }
            &&& match walk.step {
                ListStepView::Perform(ListAction::Exists) => walk.listing.resume(
                    store,
                    ListOutcomeView::Present(false),
                ).1 == ListStepView::<Seq<Seq<char>>>::Finished(Ok(seq![])),
                ListStepView::Perform(ListAction::ReadDir { .. }) => step
                    == ListStepView::<Seq<Seq<char>>>::Finished(Err(error)),
                ListStepView::Perform(ListAction::NextEntry { .. }) => step
                    == ListStepView::<Seq<Seq<char>>>::Finished(Err(error)),
                ListStepView::Perform(ListAction::RemoveEntry) => step
                    == ListStepView::<Seq<Seq<char>>>::Perform(ListAction::NextEntry { depth: 0 })
                    && next.keys == walk.listing.keys,
                ListStepView::Perform(ListAction::Metadata) => if error.kind
                    == ErrorKind::NotFound && walk.listing.retries > 0 {
                    &&& step == ListStepView::<Seq<Seq<char>>>::Perform(
                        ListAction::ReadDir { depth: 0 },
                    )
                    &&& next.retries == walk.listing.retries - 1
                    &&& next.keys == Seq::<Seq<char>>::empty()
                } else {
                    step == ListStepView::<Seq<Seq<char>>>::Finished(Err(error))
                },
                _ => true,
            }
        }),
{
    lemma_after_on_track(Walk::start(data_dir, dir, kind), passes, reports);
}

/// A reported entry, or one that had to wait, is treated as its name, the platform and the store at
/// that time ask for: it is looked at, passed over, deleted or waits.
pub proof fn law_reported_entry_meets_its_fate(
    data_dir: PathView,
    dir: PathView,
    kind: EntryKind,
    passes: Seq<Seq<DirItem>>,
    reports: Seq<Report>,
    store: StoreView,
    entry: EntryView,
)
    requires
        passes.len() == 11,
        Walk::start(data_dir, dir, kind).allows_all(passes, reports),
    ensures
        ({
            let walk = Walk::start(data_dir, dir, kind).after(passes, reports);
            let listing = walk.listing;
            let treatment = |name: Seq<u8>| match store.entry_fate(dir, name) {
                EntryFate::Inspect => ListStepView::<Seq<Seq<char>>>::Perform(
                    ListAction::Metadata,
                ),
                EntryFate::Skip => ListStepView::Perform(ListAction::NextEntry { depth: 0 }),
                EntryFate::Discard => ListStepView::Perform(ListAction::RemoveEntry),
                EntryFate::Wait => ListStepView::Wait,
            };
            &&& walk.step == ListStepView::<Seq<Seq<char>>>::Perform(
                ListAction::NextEntry { depth: 0 },
            ) ==> {
                &&& listing.resume(store, ListOutcomeView::Entry(entry)).1 == treatment(
                    entry.file_name(),
                )
                &&& listing.resume(store, ListOutcomeView::Entry(entry)).0.entry == Some(entry)
            }
            &&& walk.step is Wait ==> {
                &&& listing.entry is Some
                &&& listing.resume(store, ListOutcomeView::Completed).1 == treatment(
                    listing.entry->0.file_name(),
                )
                &&& listing.resume(store, ListOutcomeView::Completed).0.entry == listing.entry
            }
        }),
{
    lemma_after_on_track(Walk::start(data_dir, dir, kind), passes, reports);
    lemma_same_directory(Walk::start(data_dir, dir, kind), passes, reports);
}

/// Every step of a listing keeps the directory that it lists.
proof fn lemma_same_directory(walk: Walk, passes: Seq<Seq<DirItem>>, reports: Seq<Report>)
    ensures
        walk.after(passes, reports).listing.dir == walk.listing.dir,
    decreases reports.len(),
{
    if reports.len() > 0 {
        lemma_same_directory(walk, passes, reports.drop_last());
    }
}

/// A listing begins with nothing found and ten retries, in the directory of its namespace.
pub proof fn law_listing_begins_afresh(data_dir: PathView, dir: PathView)
    ensures
        ListingView::start(data_dir, dir).base == data_dir + dir,
        ListingView::start(data_dir, dir).dir == dir,
        ListingView::start(data_dir, dir).retries == 10,
        ListingView::start(data_dir, dir).keys.len() == 0,
        LIST_DIR_CONSISTENCY_RETRIES == 10,
{
}

/// A listing of a namespace whose directory does not exist finds no keys.
pub proof fn law_missing_directory_holds_no_keys(listing: ListingView, store: StoreView)
    requires
        listing.stage == ListStage::Checking,
    ensures
        listing.resume(store, ListOutcomeView::Present(false)).1 == ListStepView::Finished(
            Ok(Seq::<Seq<char>>::empty()),
        ),
{
}

/// A listing starts over only because an entry vanished, and forgets what it has found. Every time
/// it has one retry less, and when none is left it fails instead.
pub proof fn law_listing_starts_over_a_limited_number_of_times(
    listing: ListingView,
    store: StoreView,
    outcome: ListOutcomeView,
)
    requires
        listing.stage != ListStage::Checking,
    ensures
        ({
            let (next, step) = listing.resume(store, outcome);
            let vanished = listing.stage == ListStage::Inspecting && outcome is Failed
                && outcome->Failed_0.kind == ErrorKind::NotFound;
            if next.stage == ListStage::Opening {
                &&& vanished
                &&& listing.retries > 0
                &&& next.retries == listing.retries - 1
                &&& next.keys == Seq::<Seq<char>>::empty()
            } else {
                &&& next.retries == listing.retries
                &&& vanished ==> step matches ListStepView::Finished(Err(_))
            }
        }),
{
}

/// A file under the name of a valid key is listed as that key and nothing else.
pub proof fn law_key_is_listed_under_its_own_name(base: PathView, item: DirItem, key: Seq<char>)
    requires
        valid_kvstore_str(key),
        item.kind == EntryKind::File,
        item.entry.path == base.push(encode_utf8(key)),
    ensures
        item_keys(base, item) == Ok::<Seq<Seq<char>>, ErrorView>(seq![key]),
{
    lemma_key_name(key);
    lemma_dotless(encode_utf8(key));
    lemma_key_of_name(base, item.entry, key);
}

/// An entry that lies in the directory `base` and bears the name of a valid key stands for that
/// key.
pub proof fn lemma_key_of_name(base: PathView, entry: EntryView, key: Seq<char>)
    requires
        valid_kvstore_str(key),
        entry.path == base.push(encode_utf8(key)),
    ensures
        key_of(entry, base) == Ok::<Seq<char>, ErrorView>(key),
{
    encode_utf8_valid_utf8(key);
    encode_utf8_decode_utf8(key);
    assert(base.is_prefix_of(entry.path));
    assert(entry.path.skip(base.len() as int) =~= seq![encode_utf8(key)]);
}

/// What a listing makes of an entry depends on its name and kind alone, in plain terms: names that
/// end in `.tmp` or `.trash` with something before are passed over, and so are directories; a file
/// whose name is made of the allowed characters is listed under that name; everything else is an
/// error.
pub proof fn law_entries_are_listed_by_name_and_kind(base: PathView, item: DirItem, name: Seq<u8>)
    requires
        item.entry.path == base.push(name),
    ensures
        ({
            let artifact = ends_in(name, seq![46u8, 116u8, 109u8, 112u8]) || ends_in(
                name,
                seq![46u8, 116u8, 114u8, 97u8, 115u8, 104u8],
            );
            if artifact {
                item_keys(base, item) == Ok::<Seq<Seq<char>>, ErrorView>(seq![])
            } else {
                match item.kind {
                    EntryKind::Directory => item_keys(base, item)
                        == Ok::<Seq<Seq<char>>, ErrorView>(seq![]),
                    EntryKind::File => if valid_utf8(name) && valid_kvstore_str(
                        decode_utf8(name),
                    ) {
                        item_keys(base, item) == Ok::<Seq<Seq<char>>, ErrorView>(
                            seq![decode_utf8(name)],
                        )
                    } else {
                        &&& item_keys(base, item) is Err
                        &&& item_keys(base, item)->Err_0.kind == ErrorKind::Other
                    },
                    EntryKind::Other => {
                        &&& item_keys(base, item) is Err
                        &&& item_keys(base, item)->Err_0.kind == ErrorKind::Other
                    },
                }
            }
        }),
{
    assert(item.entry.path.last() == name);
    assert(item.entry.path.skip(base.len() as int) =~= seq![name]);
    assert(base.is_prefix_of(item.entry.path));
    law_artifacts_are_known_by_their_ending(name);
    let rest = seq![name];
    assert(rest[0] == name);
    if valid_utf8(name) {
        assert(is_text(rest));
    } else {
        assert(!is_text(rest)) by {
            assert(!valid_utf8(rest[0]));
        }
    }
}

/// An entry is a key exactly if it is a file, and stands for the text by which its path goes beyond
/// that of its directory, if there is one such component at most and it is a valid text. Messages
/// about an entry say what was wrong with it, and show its path in printable characters.
pub proof fn law_entry_stands_for_its_name_or_says_what_is_wrong(entry: EntryView, base: PathView)
    ensures
        ({
            let path = match entry.shown {
                Some(shown) => printable_text(shown),
                None => printable_text(seq![]),
            };
            let rest = entry.path.skip(base.len() as int);
            &&& is_key(entry, EntryKind::Other) == Err::<bool, ErrorView>(
                ErrorView {
                    kind: ErrorKind::Other,
                    message: Some(
                        "Failed to list keys "@ + "at"@ + " path "@ + path + ": "@
                            + "file couldn't be accessed."@,
                    ),
                },
            )
            &&& is_key(entry, EntryKind::File) == Ok::<bool, ErrorView>(true)
            &&& is_key(entry, EntryKind::Directory) == Ok::<bool, ErrorView>(false)
            &&& key_of(entry, base) is Ok <==> {
                &&& base.is_prefix_of(entry.path)
                &&& rest.len() <= 1
                &&& rest.len() == 1 ==> valid_utf8(rest[0]) && valid_kvstore_str(
                    decode_utf8(rest[0]),
                )
            }
            &&& key_of(entry, base) matches Err(error) ==> error == (ErrorView {
                kind: ErrorKind::Other,
                message: Some(
                    "Failed to list keys "@ + "of"@ + " path "@ + path + ": "@ + if !base.is_prefix_of(
                        entry.path,
                    ) {
                        "prefix not found"@
                    } else if exists|i: int|
                        0 <= i < rest.len() && !valid_utf8(#[trigger] rest[i]) {
                        "file path is not valid UTF-8"@
                    } else {
                        "file path is not valid key"@
                    },
                ),
            })
            &&& key_of(entry, base) matches Ok(key) ==> {
                &&& base.is_prefix_of(entry.path)
                &&& rest.len() <= 1
                &&& valid_kvstore_str(key)
                &&& key.len() == 0 ==> rest.len() == 0 || rest[0].len() == 0
                &&& rest.len() == 1 ==> encode_utf8(key) == rest[0]
            }
        }),
{
    let rest = entry.path.skip(base.len() as int);
    if rest.len() == 1 && valid_utf8(rest[0]) {
        decode_utf8_encode_utf8(rest[0]);
        assert(is_text(rest));
    }
    if rest.len() == 0 {
        assert(is_text(rest));
        assert(valid_kvstore_str(name_text(rest)));
    }
    if key_of(entry, base) is Ok {
        assert(is_text(rest));
        if rest.len() == 1 {
            assert(valid_utf8(rest[0]));
            if key_of(entry, base)->Ok_0.len() == 0 {
                assert(key_of(entry, base)->Ok_0 =~= seq![]);
                assert(encode_utf8(Seq::<char>::empty()) =~= seq![]);
            }
        }
    }
}

/// What a listing does with an entry follows from the end of its name, the platform and what the
/// store holds at that time: temporary files are passed over, and so are trash files on Unix; on
/// Windows a trash file is passed over if the removal that left it is pending, waits while any
/// file is being changed, and is deleted otherwise. Everything else is looked at.
pub proof fn law_fate_of_an_entry(store: StoreView, dir: PathView, name: Seq<u8>)
    ensures
        ({
            let temporary = ends_in(name, seq![46u8, 116u8, 109u8, 112u8]);
            let trash = ends_in(name, seq![46u8, 116u8, 114u8, 97u8, 115u8, 104u8]);
            let pending = exists|dest: PathView, version: u64, number: usize|
                store.locks.contains_key(dest) && store.locks[dest].state.pending_durability
                    == Some(PendingDurability::File { version, trash: Some(number) }) && dir.push(
                    name,
                ) == #[trigger] pending_trash_path(dest, version, number);
            let changing = exists|dest: PathView| #[trigger]
                store.locks.contains_key(dest) && store.locks[dest].writing;
            store.entry_fate(dir, name) == if temporary {
                EntryFate::Skip
            } else if trash {
                if store.platform == Platform::Unix || pending {
                    EntryFate::Skip
                } else if changing {
                    EntryFate::Wait
                } else {
                    EntryFate::Discard
                }
            } else {
                EntryFate::Inspect
            }
        }),
{
    law_artifacts_are_known_by_their_ending(name);
    let path = dir.push(name);
    if pending_trash(store.locks, path) {
        let dest = choose|dest: PathView| #[trigger]
            store.locks.contains_key(dest) && is_trash_of(dest, store.locks[dest], path);
        let pending = store.locks[dest].state.pending_durability->0;
        assert(path == pending_trash_path(dest, pending.spec_version(), pending.trash()->0));
    }
    assert forall|dest: PathView, version: u64, number: usize|
        store.locks.contains_key(dest) && store.locks[dest].state.pending_durability == Some(
            PendingDurability::File { version, trash: Some(number) },
        ) && path == #[trigger] pending_trash_path(dest, version, number) implies pending_trash(
        store.locks,
        path,
    ) by {
        assert(is_trash_of(dest, store.locks[dest], path));
    }
}

/// The trash file of a removal that is not durable yet.
pub open spec fn pending_trash_path(dest: PathView, version: u64, number: usize) -> PathView {
    artifact_path(dest, number as nat, Artifact::Trash)
}

/// A listing deletes nothing but trash files, and of these none that belongs to a removal that is
/// not durable yet.
pub proof fn law_listing_deletes_no_key_and_no_pending_trash(
    store: StoreView,
    dir: PathView,
    name: Seq<u8>,
)
    requires
        dotless(name) || pending_trash(store.locks, dir.push(name)) || any_writing(store.locks),
    ensures
        store.entry_fate(dir, name) != EntryFate::Discard,
{
    if dotless(name) {
        lemma_dotless(name);
    }
}

/// A listing asks to delete an entry only if no removal that is pending left it, and only while no
/// file is being changed.
pub proof fn law_listing_keeps_pending_trash(
    data_dir: PathView,
    listing: ListingView,
    store: StoreView,
    outcome: ListOutcomeView,
    dest: PathView,
)
    requires
        listing.valid(),
        listing.base == data_dir + listing.dir,
        listing.resume(store, outcome).1 == ListStepView::<Seq<Seq<char>>>::Perform(
            ListAction::RemoveEntry,
        ),
        listing.resume(store, outcome).0.entry->0.path == listing.base.push(
            listing.resume(store, outcome).0.entry->0.file_name(),
        ),
        store.locks.contains_key(dest),
    ensures
        store.platform == Platform::Windows,
        !store.locks[dest].writing,
        store.locks[dest].state.pending_durability matches Some(
            PendingDurability::File { trash: Some(number), .. },
        ) ==> listing.resume(store, outcome).0.entry->0.path != data_dir + artifact_path(
            dest,
            number as nat,
            Artifact::Trash,
        ),
{
    let entry = listing.resume(store, outcome).0.entry->0;
    let name = entry.file_name();
    let path = listing.dir.push(name);
    assert(entry.path =~= data_dir + path);
    if let Some(PendingDurability::File { trash: Some(number), .. }) =
        store.locks[dest].state.pending_durability {
        let trash = artifact_path(dest, number as nat, Artifact::Trash);
        if entry.path == data_dir + trash {
            assert(path =~= (data_dir + path).skip(data_dir.len() as int));
            assert(trash =~= (data_dir + trash).skip(data_dir.len() as int));
            assert(is_trash_of(dest, store.locks[dest], path));
        }
    }
}

} // verus!
