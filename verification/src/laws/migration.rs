//! Laws on what a listing of all keys gives.

use crate::error::{ErrorKind, ErrorView};
use crate::laws::listing::Report;
use crate::laws::listing::{joined, lemma_key_of_name};
use crate::laws::names::{ends_in, law_artifacts_are_known_by_their_ending};
use crate::listing::{
    EntryFate, EntryKind, EntryView, ListAction, ListOutcomeView, ListStage, ListStepView,
};
use crate::listing::{answers, is_key, is_text, key_of, listing_error};
use crate::locks::is_trash_of;
use crate::migration::{AllKeysView, KeyTriple};
use crate::migration::{base_of, dirs_path, triple_of};
use crate::namespace::{namespace_fault, valid_kvstore_str};
use crate::path::{Artifact, PathView};
use crate::path::{artifact_of, artifact_path, component, dest_path};
use crate::state::{PendingDurability, Platform};
use crate::store::StoreView;
use crate::text::printable_text;
use vstd::prelude::*;
use vstd::utf8::{decode_utf8, decode_utf8_encode_utf8, encode_utf8, valid_utf8};

verus! {

/// An entry of a directory, what it is and, if it is a directory, what it holds.
pub struct Node {
    pub entry: EntryView,
    pub kind: EntryKind,
    pub children: Seq<Node>,
}

/// The keys in and below an entry, where `dirs` are the directories that lead to it from the data
/// directory, whose whole path is `base`, or the first error.
pub open spec fn node_keys(base: PathView, dirs: Seq<EntryView>, node: Node) -> Result<
    Seq<KeyTriple>,
    ErrorView,
>
    decreases node,
{
    if artifact_of(node.entry.file_name()) is Some {
        Ok(seq![])
    } else {
        match is_key(node.entry, node.kind) {
            Err(error) => Err(error),
            Ok(true) => match triple_of(base, dirs, node.entry) {
                Err(error) => Err(error),
                Ok(triple) => Ok(seq![triple]),
            },
            Ok(false) => if dirs.len() < 2 {
                tree_keys(base, dirs.push(node.entry), node.children)
            } else {
                Err(
                    listing_error(
                        node.entry,
                        "of"@,
                        "only two levels of namespaces are supported"@,
                    ),
                )
            },
        }
    }
}

/// The keys in and below some entries, in their order, or the first error.
pub open spec fn tree_keys(base: PathView, dirs: Seq<EntryView>, nodes: Seq<Node>) -> Result<
    Seq<KeyTriple>,
    ErrorView,
>
    decreases nodes,
{
    if nodes.len() == 0 {
        Ok(seq![])
    } else {
        joined(
            node_keys(base, dirs, nodes[0]),
            tree_keys(base, dirs, nodes.drop_first()),
        )
    }
}

/// How many entries there are in and below some directory.
pub open spec fn entries(nodes: Seq<Node>) -> nat
    decreases nodes,
{
    if nodes.len() == 0 {
        0
    } else {
        1 + entries(nodes[0].children) + entries(nodes.drop_first())
    }
}

/// A listing of all keys while nothing changes, and a caller who answers what the listing asks for.
pub struct TreeWalk {
    pub listing: AllKeysView,
    /// What the listing came to last.
    pub step: ListStepView<Seq<KeyTriple>>,
    /// The last entry.
    pub node: Node,
    /// The entries that were not reported yet of every open directory, outermost first.
    pub open: Seq<Seq<Node>>,
    /// How often the listing had to wait.
    pub waits: nat,
}

impl TreeWalk {
    /// Whether a report is the truth about the action that the listing asked for. Directories can
    /// be read that are open, and the last entry can be opened below the open ones.
    pub open spec fn allows(self, report: Report) -> bool {
        match self.step {
            ListStepView::Wait => report.outcome is Completed,
            ListStepView::Perform(ListAction::Exists) => report.outcome
                == ListOutcomeView::Present(true),
            ListStepView::Perform(ListAction::ReadDir { depth }) => depth <= self.open.len()
                && report.outcome is Completed,
            ListStepView::Perform(ListAction::NextEntry { depth }) => depth < self.open.len()
                && report.outcome == if self.open[depth as int].len() > 0 {
                ListOutcomeView::Entry(self.open[depth as int][0].entry)
            } else {
                ListOutcomeView::End
            },
            ListStepView::Perform(ListAction::Metadata) => report.outcome
                == ListOutcomeView::Kind(self.node.kind),
            ListStepView::Perform(ListAction::RemoveEntry) => report.outcome is Completed
                || report.outcome is Failed,
            ListStepView::Finished(_) => false,
        }
    }

    /// The listing after a report. Opening or reading a directory closes those below it.
    pub open spec fn next(self, nodes: Seq<Node>, report: Report) -> TreeWalk {
        let (listing, step) = self.listing.resume(report.store, report.outcome);
        match self.step {
            ListStepView::Wait => TreeWalk { listing, step, waits: self.waits + 1, ..self },
            ListStepView::Perform(ListAction::ReadDir { depth }) => TreeWalk {
                listing,
                step,
                open: if depth == 0 {
                    seq![nodes]
                } else {
                    self.open.take(depth as int).push(self.node.children)
                },
                ..self
            },
            ListStepView::Perform(ListAction::NextEntry { depth }) => {
                let current = self.open[depth as int];
                if current.len() > 0 {
                    TreeWalk {
                        listing,
                        step,
                        node: current[0],
                        open: self.open.take(depth as int).push(current.drop_first()),
                        ..self
                    }
                } else {
                    TreeWalk { listing, step, open: self.open.take(depth as int), ..self }
                }
            },
            _ => TreeWalk { listing, step, ..self },
        }
    }

    /// The listing after some reports.
    pub open spec fn after(self, nodes: Seq<Node>, reports: Seq<Report>) -> TreeWalk
        decreases reports.len(),
    {
        if reports.len() == 0 {
            self
        } else {
            self.after(nodes, reports.drop_last()).next(nodes, reports.last())
        }
    }

    /// Whether the reports are the truth about what the listing asked for.
    pub open spec fn allows_all(self, nodes: Seq<Node>, reports: Seq<Report>) -> bool
        decreases reports.len(),
    {
        reports.len() == 0 || {
            &&& self.allows_all(nodes, reports.drop_last())
            &&& self.after(nodes, reports.drop_last()).allows(reports.last())
        }
    }

    /// The listing at its beginning.
    pub open spec fn start(base: PathView, node: Node) -> TreeWalk {
        TreeWalk {
            listing: AllKeysView::start(base),
            step: ListStepView::Perform(ListAction::Exists),
            node,
            open: seq![],
            waits: 0,
        }
    }

    /// Whether the listing asked for `action`.
    spec fn asks(self, action: ListAction) -> bool {
        self.step == ListStepView::<Seq<KeyTriple>>::Perform(action)
    }

    /// What holds of the listing at every stage: what it has found and what lies ahead make up what
    /// the directories hold, and it asks for what it awaits.
    spec fn on_track(self, nodes: Seq<Node>) -> bool {
        let base = self.listing.base;
        let dirs = self.listing.dirs;
        let keys = self.listing.keys;
        let all = tree_keys(base, seq![], nodes);
        &&& self.listing.stage != ListStage::Over ==> dirs.len() <= 2
        &&& match self.listing.stage {
            ListStage::Checking => {
                &&& self.asks(ListAction::Exists)
                &&& dirs.len() == 0
                &&& keys.len() == 0
                &&& self.open.len() == 0
            },
            ListStage::Opening => {
                &&& self.asks(ListAction::ReadDir { depth: dirs.len() as usize })
                &&& if dirs.len() == 0 {
                    keys.len() == 0 && self.open.len() == 0
                } else {
                    &&& self.open.len() == dirs.len()
                    &&& unwound(base, keys, dirs, self.open.push(self.node.children)) == all
                }
            },
            ListStage::Reading => {
                &&& self.asks(ListAction::NextEntry { depth: dirs.len() as usize })
                &&& self.open.len() == dirs.len() + 1
                &&& unwound(base, keys, dirs, self.open) == all
            },
            ListStage::Waiting | ListStage::Discarding => {
                &&& if self.listing.stage == ListStage::Waiting {
                    self.step is Wait
                } else {
                    self.asks(ListAction::RemoveEntry)
                }
                &&& self.open.len() == dirs.len() + 1
                &&& self.listing.entry == Some(self.node.entry)
                &&& artifact_of(self.node.entry.file_name()) is Some
                &&& unwound(base, keys, dirs, self.open) == all
            },
            ListStage::Inspecting => {
                &&& self.asks(ListAction::Metadata)
                &&& self.open.len() == dirs.len() + 1
                &&& self.listing.entry == Some(self.node.entry)
                &&& artifact_of(self.node.entry.file_name()) is None
                &&& match node_keys(base, dirs, self.node) {
                    Err(error) => all == Err::<Seq<KeyTriple>, ErrorView>(error),
                    Ok(more) => unwound(base, keys + more, dirs, self.open) == all,
                }
            },
            ListStage::Over => self.step == ListStepView::Finished(all),
        }
    }

    /// How many reports may still come, those not counted that end a wait.
    spec fn reports_left(self, nodes: Seq<Node>) -> nat {
        match self.listing.stage {
            ListStage::Checking => 3 + 4 * entries(nodes),
            ListStage::Opening => if self.listing.dirs.len() == 0 {
                2 + 4 * entries(nodes)
            } else {
                2 + 4 * entries(self.node.children) + open_left(self.open)
            },
            ListStage::Reading => open_left(self.open),
            ListStage::Waiting | ListStage::Discarding => 1 + open_left(self.open),
            ListStage::Inspecting => 3 + 4 * entries(self.node.children) + open_left(self.open),
            ListStage::Over => 0,
        }
    }
}

/// How many reports it takes to read open directories to their ends.
spec fn open_left(open: Seq<Seq<Node>>) -> nat
    decreases open.len(),
{
    if open.len() == 0 {
        0
    } else {
        1 + 4 * entries(open.last()) + open_left(open.drop_last())
    }
}

/// The keys that a listing ends with which has found `keys` and has the entries `ahead` before it
/// in the open directories.
spec fn unwound(
    base: PathView,
    keys: Seq<KeyTriple>,
    dirs: Seq<EntryView>,
    ahead: Seq<Seq<Node>>,
) -> Result<Seq<KeyTriple>, ErrorView>
    decreases ahead.len(),
{
    if ahead.len() == 0 {
        Ok(keys)
    } else {
        match tree_keys(base, dirs.take(ahead.len() - 1), ahead.last()) {
            Err(error) => Err(error),
            Ok(more) => unwound(base, keys + more, dirs, ahead.drop_last()),
        }
    }
}

/// What is below the open directories does not bear on what lies ahead in them.
proof fn lemma_unwound_dirs(
    base: PathView,
    keys: Seq<KeyTriple>,
    dirs: Seq<EntryView>,
    other_dirs: Seq<EntryView>,
    ahead: Seq<Seq<Node>>,
)
    requires
        ahead.len() <= dirs.len() + 1,
        ahead.len() <= other_dirs.len() + 1,
        forall|i: int| 0 <= i < ahead.len() - 1 ==> dirs[i] == other_dirs[i],
    ensures
        unwound(base, keys, dirs, ahead) == unwound(base, keys, other_dirs, ahead),
    decreases ahead.len(),
{
    if ahead.len() > 0 {
        assert(dirs.take(ahead.len() - 1) =~= other_dirs.take(ahead.len() - 1));
        match tree_keys(base, dirs.take(ahead.len() - 1), ahead.last()) {
            Err(_) => {},
            Ok(more) => {
                lemma_unwound_dirs(base, keys + more, dirs, other_dirs, ahead.drop_last());
            },
        }
    }
}

/// A report keeps a listing on track.
proof fn lemma_next_on_track(walk: TreeWalk, nodes: Seq<Node>, report: Report)
    requires
        walk.on_track(nodes),
        walk.allows(report),
    ensures
        walk.next(nodes, report).on_track(nodes),
        walk.next(nodes, report).listing.base == walk.listing.base,
        walk.next(nodes, report).reports_left(nodes) + 1 + walk.waits <= walk.reports_left(nodes)
            + walk.next(nodes, report).waits,
{
    let base = walk.listing.base;
    let dirs = walk.listing.dirs;
    let keys = walk.listing.keys;
    let ahead = walk.open;
    assert(keys + Seq::<KeyTriple>::empty() =~= keys);
    match walk.listing.stage {
        ListStage::Opening => {
            if dirs.len() == 0 {
                assert(seq![nodes].drop_last() =~= seq![]);
                assert(open_left(seq![nodes].drop_last()) == 0);
                assert(dirs.take(0) =~= seq![]);
                let all = tree_keys(base, seq![], nodes);
                if all is Ok {
                    assert(keys + all->Ok_0 =~= all->Ok_0);
                }
                reveal_with_fuel(unwound, 2);
            } else {
                assert(ahead.take(dirs.len() as int) =~= ahead);
                assert(ahead.push(walk.node.children).drop_last() =~= ahead);
            }
        },
        ListStage::Reading => {
            let front = ahead.drop_last();
            assert(dirs.take(ahead.len() - 1) =~= dirs);
            assert(ahead.take(dirs.len() as int) =~= front);
            assert(ahead[dirs.len() as int] == ahead.last());
            if ahead.last().len() > 0 {
                let node = ahead.last()[0];
                let rest = ahead.last().drop_first();
                assert(front.push(rest).drop_last() =~= front);
                let first = node_keys(base, dirs, node);
                let others = tree_keys(base, dirs, rest);
                if first is Ok && others is Ok {
                    assert(keys + (first->Ok_0 + others->Ok_0) =~= (keys + first->Ok_0)
                        + others->Ok_0);
                }
            } else if dirs.len() == 0 {
                assert(front.len() == 0);
            } else {
                lemma_unwound_dirs(base, keys, dirs, dirs.drop_last(), front);
            }
        },
        ListStage::Inspecting => {
            let node = walk.node;
            match is_key(node.entry, node.kind) {
                Ok(true) => {
                    if triple_of(base, dirs, node.entry) is Ok {
                        let triple = triple_of(base, dirs, node.entry)->Ok_0;
                        assert(keys.push(triple) =~= keys + seq![triple]);
                    }
                },
                Ok(false) => {
                    if dirs.len() < 2 {
                        let inner = dirs.push(node.entry);
                        let opened = ahead.push(node.children);
                        assert(opened.drop_last() =~= ahead);
                        assert(inner.take(opened.len() - 1) =~= inner);
                        match tree_keys(base, inner, node.children) {
                            Err(_) => {},
                            Ok(more) => {
                                lemma_unwound_dirs(base, keys + more, dirs, inner, ahead);
                            },
                        }
                    }
                },
                Err(_) => {},
            }
        },
        _ => {},
    }
}

/// Reports keep a listing on track.
proof fn lemma_after_on_track(walk: TreeWalk, nodes: Seq<Node>, reports: Seq<Report>)
    requires
        walk.on_track(nodes),
        walk.allows_all(nodes, reports),
    ensures
        walk.after(nodes, reports).on_track(nodes),
        walk.after(nodes, reports).listing.base == walk.listing.base,
        walk.after(nodes, reports).reports_left(nodes) + reports.len() + walk.waits
            <= walk.reports_left(nodes) + walk.after(nodes, reports).waits,
    decreases reports.len(),
{
    if reports.len() > 0 {
        lemma_after_on_track(walk, nodes, reports.drop_last());
        lemma_next_on_track(walk.after(nodes, reports.drop_last()), nodes, reports.last());
    }
}

/// A listing of all keys, while nothing changes and told the truth about whatever it asks for,
/// gives exactly the keys of the files that are no artifacts, each with the namespaces of the
/// directories that it lies in, in the order in which the directories report them. If something
/// lies there that cannot be a key or a namespace, the first such entry is the error that the
/// listing gives instead.
pub proof fn law_listing_of_all_keys_gives_exactly_the_keys(
    base: PathView,
    node: Node,
    nodes: Seq<Node>,
    reports: Seq<Report>,
)
    requires
        TreeWalk::start(base, node).allows_all(nodes, reports),
    ensures
        ({
            let walk = TreeWalk::start(base, node).after(nodes, reports);
            walk.step is Finished ==> walk.step == ListStepView::Finished(
                tree_keys(base, seq![], nodes),
            )
        }),
{
    lemma_after_on_track(TreeWalk::start(base, node), nodes, reports);
}

/// A listing of all keys never asks for what cannot be answered: at all times it is over, waits, or
/// asks for the next entry of the directory that was opened last and not read to its end, for the
/// last entry to be opened just below that one, or for something about the last entry. And it takes
/// every true answer.
pub proof fn law_listing_of_all_keys_can_always_go_on(
    base: PathView,
    node: Node,
    nodes: Seq<Node>,
    reports: Seq<Report>,
    report: Report,
)
    requires
        TreeWalk::start(base, node).allows_all(nodes, reports),
    ensures
        ({
            let walk = TreeWalk::start(base, node).after(nodes, reports);
            &&& !(walk.step is Finished) ==> walk.listing.valid()
            &&& walk.allows(report) ==> answers(walk.listing.stage, report.outcome)
            &&& match walk.step {
                ListStepView::Perform(ListAction::Exists) => reports.len() == 0,
                ListStepView::Perform(ListAction::ReadDir { depth }) => depth == walk.open.len(),
                ListStepView::Perform(ListAction::NextEntry { depth }) => depth
                    == walk.open.len() - 1,
                ListStepView::Perform(ListAction::Metadata) => walk.listing.entry == Some(
                    walk.node.entry,
                ),
                ListStepView::Perform(ListAction::RemoveEntry) => walk.listing.entry == Some(
                    walk.node.entry,
                ),
                _ => true,
            }
        }),
{
    let start = TreeWalk::start(base, node);
    lemma_after_on_track(start, nodes, reports);
    if reports.len() > 0 {
        lemma_after_on_track(start, nodes, reports.drop_last());
    }
}

/// Every action that a listing of all keys hands out is the one that it then awaits the outcome of,
/// whatever came before: it opens the directory that was entered last, asks for the next entry of
/// that directory, looks at an entry or deletes it. It waits and ends where it says so.
pub proof fn law_listing_of_all_keys_asks_for_what_it_awaits(
    listing: AllKeysView,
    store: StoreView,
    outcome: ListOutcomeView,
)
    requires
        listing.dirs.len() <= 2,
        listing.stage == ListStage::Checking ==> listing.dirs.len() == 0,
        answers(listing.stage, outcome),
    ensures
        ({
            let (next, step) = listing.resume(store, outcome);
            match next.stage {
                ListStage::Checking => false,
                ListStage::Opening => step == ListStepView::<Seq<KeyTriple>>::Perform(
                    ListAction::ReadDir { depth: next.dirs.len() as usize },
                ),
                ListStage::Reading => step == ListStepView::<Seq<KeyTriple>>::Perform(
                    ListAction::NextEntry { depth: next.dirs.len() as usize },
                ),
                ListStage::Waiting => step is Wait,
                ListStage::Discarding => step == ListStepView::<Seq<KeyTriple>>::Perform(
                    ListAction::RemoveEntry,
                ),
                ListStage::Inspecting => step == ListStepView::<Seq<KeyTriple>>::Perform(
                    ListAction::Metadata,
                ),
                ListStage::Over => step is Finished,
            }
        }),
{
}

/// A listing of all keys ends: it takes at most four reports for each entry and three more, besides
/// those that end a wait.
pub proof fn law_listing_of_all_keys_ends(
    base: PathView,
    node: Node,
    nodes: Seq<Node>,
    reports: Seq<Report>,
)
    requires
        TreeWalk::start(base, node).allows_all(nodes, reports),
    ensures
        reports.len() <= 3 + 4 * entries(nodes) + TreeWalk::start(base, node).after(
            nodes,
            reports,
        ).waits,
{
    lemma_after_on_track(TreeWalk::start(base, node), nodes, reports);
}

/// What a listing of all keys does when what it asked for fails, and it takes every such answer: it
/// ends with that failure, unless it was only a trash file that could not be deleted. If there is
/// no data directory, there are no keys.
pub proof fn law_listing_of_all_keys_answers_failures(
    base: PathView,
    node: Node,
    nodes: Seq<Node>,
    reports: Seq<Report>,
    store: StoreView,
    error: ErrorView,
)
    requires
        TreeWalk::start(base, node).allows_all(nodes, reports),
    ensures
        ({
            let walk = TreeWalk::start(base, node).after(nodes, reports);
            let (next, step) = walk.listing.resume(store, ListOutcomeView::Failed(error));
            &&& match walk.step {
                ListStepView::Perform(ListAction::Exists) => answers(
                    walk.listing.stage,
                    ListOutcomeView::Present(false),
                ),
                ListStepView::Perform(_) => answers(
                    walk.listing.stage,
                    ListOutcomeView::Failed(error),
                ),
                _ => true,
            }
            &&& match walk.step {
                ListStepView::Perform(ListAction::ReadDir { .. }) => step
                    == ListStepView::<Seq<KeyTriple>>::Finished(Err(error)),
                ListStepView::Perform(ListAction::NextEntry { .. }) => step
                    == ListStepView::<Seq<KeyTriple>>::Finished(Err(error)),
                ListStepView::Perform(ListAction::Metadata) => step
                    == ListStepView::<Seq<KeyTriple>>::Finished(Err(error)),
                ListStepView::Perform(ListAction::RemoveEntry) => step
                    == ListStepView::<Seq<KeyTriple>>::Perform(
                    ListAction::NextEntry { depth: (walk.open.len() - 1) as usize },
                ) && next.keys == walk.listing.keys && next.dirs == walk.listing.dirs,
                ListStepView::Perform(ListAction::Exists) => walk.listing.resume(
                    store,
                    ListOutcomeView::Present(false),
                ).1 == ListStepView::<Seq<KeyTriple>>::Finished(Ok(seq![])),
                _ => true,
            }
        }),
{
    lemma_after_on_track(TreeWalk::start(base, node), nodes, reports);
}

/// In a listing of all keys, a reported entry, or one that had to wait, is treated as its name, the
/// platform and the store at that time ask for: it is looked at, passed over, deleted or waits.
pub proof fn law_reported_entry_of_all_meets_its_fate(
    base: PathView,
    node: Node,
    nodes: Seq<Node>,
    reports: Seq<Report>,
    store: StoreView,
    entry: EntryView,
)
    requires
        TreeWalk::start(base, node).allows_all(nodes, reports),
    ensures
        ({
            let walk = TreeWalk::start(base, node).after(nodes, reports);
            let listing = walk.listing;
            let dir = Seq::new(listing.dirs.len(), |i: int| listing.dirs[i].file_name());
            let treatment = |name: Seq<u8>| match store.entry_fate(dir, name) {
                EntryFate::Inspect => ListStepView::<Seq<KeyTriple>>::Perform(
                    ListAction::Metadata,
                ),
                EntryFate::Skip => ListStepView::Perform(
                    ListAction::NextEntry { depth: (walk.open.len() - 1) as usize },
                ),
                EntryFate::Discard => ListStepView::Perform(ListAction::RemoveEntry),
                EntryFate::Wait => ListStepView::Wait,
            };
            &&& walk.step == ListStepView::<Seq<KeyTriple>>::Perform(
                ListAction::NextEntry { depth: (walk.open.len() - 1) as usize },
            ) ==> {
                &&& listing.resume(store, ListOutcomeView::Entry(entry)).1 == treatment(
                    entry.file_name(),
                )
                &&& listing.resume(store, ListOutcomeView::Entry(entry)).0.entry == Some(entry)
            }
            &&& walk.step is Wait ==> {
                &&& listing.entry == Some(walk.node.entry)
                &&& listing.resume(store, ListOutcomeView::Completed).1 == treatment(
                    walk.node.entry.file_name(),
                )
                &&& listing.resume(store, ListOutcomeView::Completed).0.entry == listing.entry
            }
        }),
{
    lemma_after_on_track(TreeWalk::start(base, node), nodes, reports);
    let listing = TreeWalk::start(base, node).after(nodes, reports).listing;
    assert(dirs_path(listing.dirs) =~= Seq::new(
        listing.dirs.len(),
        |i: int| listing.dirs[i].file_name(),
    ));
}

/// Whether the directories that lead to an entry lie one in the other, the first of them in the
/// directory whose whole path is `base`.
pub open spec fn nested(base: PathView, dirs: Seq<EntryView>) -> bool {
    forall|i: int|
        0 <= i < dirs.len() ==> lies_in(#[trigger] dirs[i], base_of(base, dirs, i))
}

/// The directory at a depth is the listed one at depth zero, and below it the one that was entered
/// at the depth before.
pub proof fn law_directories_by_depth(base: PathView, dirs: Seq<EntryView>, depth: int)
    requires
        0 <= depth <= dirs.len(),
    ensures
        base_of(base, dirs, depth) == if depth == 0 {
            base
        } else {
            dirs[depth - 1].path
        },
        dirs_path(dirs).len() == dirs.len(),
        depth < dirs.len() ==> dirs_path(dirs)[depth] == dirs[depth].file_name(),
{
}

/// Whether an entry lies in the directory whose whole path is `base`.
pub open spec fn lies_in(entry: EntryView, base: PathView) -> bool {
    entry.path == base.push(entry.file_name()) && entry.file_name().len() > 0
}

/// An entry bears the name of the key or namespace that it stands for.
pub proof fn lemma_lies_in(base: PathView, entry: EntryView, name: Seq<char>)
    requires
        lies_in(entry, base),
        key_of(entry, base) == Ok::<Seq<char>, ErrorView>(name),
    ensures
        component(name) == seq![entry.file_name()],
        valid_kvstore_str(name),
        name.len() > 0,
{
    let rest = entry.path.skip(base.len() as int);
    assert(rest =~= seq![entry.file_name()]);
    decode_utf8_encode_utf8(entry.file_name());
    assert(valid_utf8(rest[0]));
    assert(name.len() > 0);
}

/// The key that a listing of all keys gives for a file is the key whose file it is.
pub proof fn law_listed_key_is_that_of_the_file(
    base: PathView,
    dirs: Seq<EntryView>,
    entry: EntryView,
    triple: KeyTriple,
)
    requires
        dirs.len() <= 2,
        nested(base, dirs),
        lies_in(entry, base_of(base, dirs, dirs.len() as int)),
        triple_of(base, dirs, entry) == Ok::<KeyTriple, ErrorView>(triple),
    ensures
        dest_path(triple.0, triple.1, Some(triple.2)) == dirs_path(dirs).push(entry.file_name()),
        namespace_fault(triple.0, triple.1, Some(triple.2)) is None,
{
    lemma_lies_in(base_of(base, dirs, dirs.len() as int), entry, triple.2);
    if dirs.len() > 0 {
        lemma_lies_in(base_of(base, dirs, 0), dirs[0], triple.0);
    }
    if dirs.len() > 1 {
        lemma_lies_in(base_of(base, dirs, 1), dirs[1], triple.1);
    }
    assert(dest_path(triple.0, triple.1, Some(triple.2)) =~= dirs_path(dirs).push(
        entry.file_name(),
    ));
}

/// A key's file is listed as that key, with its namespaces.
pub proof fn law_key_is_listed_with_its_namespaces(
    base: PathView,
    dirs: Seq<EntryView>,
    entry: EntryView,
    triple: KeyTriple,
)
    requires
        namespace_fault(triple.0, triple.1, Some(triple.2)) is None,
        nested(base, dirs),
        lies_in(entry, base_of(base, dirs, dirs.len() as int)),
        dirs_path(dirs).push(entry.file_name()) == dest_path(
            triple.0,
            triple.1,
            Some(triple.2),
        ),
    ensures
        triple_of(base, dirs, entry) == Ok::<KeyTriple, ErrorView>(triple),
{
    let path = dest_path(triple.0, triple.1, Some(triple.2));
    let dir = component(triple.0) + component(triple.1);
    assert(path.last() == encode_utf8(triple.2));
    assert(path.last() == entry.file_name());
    assert(path.drop_last() =~= dir);
    assert(path.drop_last() =~= dirs_path(dirs));
    lemma_key_of_name(base_of(base, dirs, dirs.len() as int), entry, triple.2);
    if dirs.len() > 0 {
        assert(dir[0] == dirs[0].file_name());
        lemma_key_of_name(base_of(base, dirs, 0), dirs[0], triple.0);
    } else {
        assert(triple.0 =~= seq![]);
    }
    if dirs.len() > 1 {
        assert(dir[1] == dirs[1].file_name());
        lemma_key_of_name(base_of(base, dirs, 1), dirs[1], triple.1);
    } else {
        assert(triple.1 =~= seq![]);
    }
}

/// Whether a file name is that of a key or namespace.
pub open spec fn names_key(name: Seq<u8>) -> bool {
    valid_utf8(name) && valid_kvstore_str(decode_utf8(name))
}

/// An entry stands for the key or namespace that its name spells, if there is one.
proof fn lemma_key_of_entry(base: PathView, entry: EntryView)
    requires
        lies_in(entry, base),
    ensures
        entry.file_name() == entry.path.last(),
        if names_key(entry.path.last()) {
            key_of(entry, base) == Ok::<Seq<char>, ErrorView>(decode_utf8(entry.path.last()))
        } else {
            key_of(entry, base) is Err && key_of(entry, base)->Err_0.kind == ErrorKind::Other
        },
{
    let rest = entry.path.skip(base.len() as int);
    assert(rest =~= seq![entry.path.last()]);
    assert(rest[0] == entry.path.last());
    if valid_utf8(entry.path.last()) {
        assert(is_text(rest));
    } else {
        assert(!is_text(rest)) by {
            assert(!valid_utf8(rest[0]));
        }
    }
}

/// What a listing of all keys makes of an entry follows from its name and kind and the names of the
/// directories that lead to it: names that end in `.tmp` or `.trash` with something before are
/// passed over; a file is listed under its name and the names of the directories, which have all
/// to be made of the allowed characters, or else the outermost that is not is the error; a directory
/// is entered, but not below two others; anything else is an error.
pub proof fn law_entries_are_listed_with_their_namespaces(
    base: PathView,
    dirs: Seq<EntryView>,
    node: Node,
)
    requires
        dirs.len() <= 2,
        nested(base, dirs),
        lies_in(node.entry, base_of(base, dirs, dirs.len() as int)),
    ensures
        ({
            let name = node.entry.path.last();
            let keys = node_keys(base, dirs, node);
            if ends_in(name, seq![46u8, 116u8, 109u8, 112u8]) || ends_in(
                name,
                seq![46u8, 116u8, 114u8, 97u8, 115u8, 104u8],
            ) {
                keys == Ok::<Seq<KeyTriple>, ErrorView>(seq![])
            } else {
                match node.kind {
                    EntryKind::Other => keys is Err && keys->Err_0.kind == ErrorKind::Other,
                    EntryKind::Directory => if dirs.len() == 2 {
                        keys == Err::<Seq<KeyTriple>, ErrorView>(
                            ErrorView {
                                kind: ErrorKind::Other,
                                message: Some(
                                    "Failed to list keys "@ + "of"@ + " path "@ + printable_text(
                                        match node.entry.shown {
                                            Some(shown) => shown,
                                            None => seq![],
                                        },
                                    ) + ": "@ + "only two levels of namespaces are supported"@,
                                ),
                            },
                        )
                    } else {
                        keys == tree_keys(base, dirs.push(node.entry), node.children)
                    },
                    EntryKind::File => if dirs.len() > 0 && !names_key(dirs[0].path.last()) {
                        key_of(dirs[0], base) is Err && keys == Err::<Seq<KeyTriple>, ErrorView>(
                            key_of(dirs[0], base)->Err_0,
                        )
                    } else if dirs.len() > 1 && !names_key(dirs[1].path.last()) {
                        key_of(dirs[1], dirs[0].path) is Err && keys == Err::<
                            Seq<KeyTriple>,
                            ErrorView,
                        >(key_of(dirs[1], dirs[0].path)->Err_0)
                    } else if names_key(name) {
                        keys == Ok::<Seq<KeyTriple>, ErrorView>(
                            seq![
                                (
                                    if dirs.len() > 0 {
                                        decode_utf8(dirs[0].path.last())
                                    } else {
                                        seq![]
                                    },
                                    if dirs.len() > 1 {
                                        decode_utf8(dirs[1].path.last())
                                    } else {
                                        seq![]
                                    },
                                    decode_utf8(name),
                                ),
                            ],
                        )
                    } else {
                        let dir = base_of(base, dirs, dirs.len() as int);
                        key_of(node.entry, dir) is Err && keys == Err::<Seq<KeyTriple>, ErrorView>(
                            key_of(node.entry, dir)->Err_0,
                        )
                    },
                }
            }
        }),
{
    let name = node.entry.path.last();
    law_artifacts_are_known_by_their_ending(name);
    lemma_key_of_entry(base_of(base, dirs, dirs.len() as int), node.entry);
    if dirs.len() > 0 {
        lemma_key_of_entry(base_of(base, dirs, 0), dirs[0]);
        assert(dirs[0].path.last() == dirs[0].file_name());
    }
    if dirs.len() > 1 {
        lemma_key_of_entry(base_of(base, dirs, 1), dirs[1]);
        assert(dirs[1].path.last() == dirs[1].file_name());
    }
}

/// A listing of all keys asks to delete an entry only if no removal that is pending left it, and
/// only while no file is being changed.
pub proof fn law_listing_of_all_keys_keeps_pending_trash(
    listing: AllKeysView,
    store: StoreView,
    outcome: ListOutcomeView,
    dest: PathView,
)
    requires
        listing.valid(),
        nested(listing.base, listing.dirs),
        listing.resume(store, outcome).1 == ListStepView::<Seq<KeyTriple>>::Perform(
            ListAction::RemoveEntry,
        ),
        lies_in(
            listing.resume(store, outcome).0.entry->0,
            base_of(listing.base, listing.dirs, listing.dirs.len() as int),
        ),
        store.locks.contains_key(dest),
    ensures
        store.platform == Platform::Windows,
        !store.locks[dest].writing,
        store.locks[dest].state.pending_durability matches Some(
            PendingDurability::File { trash: Some(number), .. },
        ) ==> listing.resume(store, outcome).0.entry->0.path != listing.base + artifact_path(
            dest,
            number as nat,
            Artifact::Trash,
        ),
{
    let base = listing.base;
    let dirs = listing.dirs;
    let entry = listing.resume(store, outcome).0.entry->0;
    let name = entry.file_name();
    let path = dirs_path(dirs).push(name);
    if dirs.len() > 0 {
        assert(lies_in(dirs[0], base_of(base, dirs, 0)));
    }
    if dirs.len() > 1 {
        assert(lies_in(dirs[1], base_of(base, dirs, 1)));
    }
    assert(base_of(base, dirs, dirs.len() as int) =~= base + dirs_path(dirs));
    assert(entry.path =~= base + path);
    if let Some(PendingDurability::File { trash: Some(number), .. }) =
        store.locks[dest].state.pending_durability {
        let trash = artifact_path(dest, number as nat, Artifact::Trash);
        if entry.path == base + trash {
            assert(path =~= (base + path).skip(base.len() as int));
            assert(trash =~= (base + trash).skip(base.len() as int));
            assert(is_trash_of(dest, store.locks[dest], path));
        }
    }
}

} // verus!
