//! Laws on what callers can rely on, whatever else happens to the store.

use crate::action::{ActionView, OutcomeView, StepView};
use crate::error::ErrorView;
use crate::execution::{ExecutionView, Job, MutationView, Stage};
use crate::execution::{begin, execution_valid, resume};
use crate::laws::disk::Disk;
use crate::laws::disk::{law_files_of_different_keys_are_apart, lemma_begin_awaits};
use crate::laws::disk::{not_older, owned, result_of, value};
use crate::laws::execution::settled;
use crate::laws::listing::dir_keys;
use crate::laws::migration::Node;
use crate::laws::migration::tree_keys;
use crate::laws::names::{is_key_file, law_artifacts_are_told_from_keys, lemma_key_file};
use crate::laws::names::law_distinct_keys_have_distinct_files;
use crate::laws::tree::{
    dir_at, file_of, is_allowed, is_stores_own, items_of, lead_to_keys, leads_to_key, tells,
    tells_dirs, well_placed,
};
use crate::laws::tree::{
    law_listing_gives_what_is_stored, law_listing_of_all_keys_gives_what_is_stored,
    law_listing_of_all_keys_holds_each_file_once,
};
use crate::laws::world::{Happening, World};
use crate::laws::world::{law_world_stays_valid, lemma_resume_state, lemma_untouched};
use crate::locks::Lock;
use crate::migration::KeyTriple;
use crate::path::{Artifact, PathView};
use crate::path::{artifact_of, artifact_path, dest_path};
use crate::state::FilesystemStoreOperationStatus;
use crate::store::StoreView;
use vstd::prelude::*;

verus! {

impl World {
    /// Whether the last step of the operation with the given index reported that it ended well.
    pub open spec fn ended_well(self, i: int) -> bool {
        self.steps[i] matches Some(StepView::Finished(Ok(_)))
    }

    /// Whether what was reported of an operation is so: its file was changed by it or by a newer
    /// one, and by a newer one if it was superseded.
    pub open spec fn report_holds(self, i: int) -> bool {
        let operation = self.operations[i];
        self.ended_well(i) ==> {
            &&& self.changed.contains_key(operation.dest)
            &&& self.changed[operation.dest] >= operation.version
            &&& self.steps[i] == Some(
                StepView::Finished(Ok(FilesystemStoreOperationStatus::Superseded)),
            ) ==> self.changed[operation.dest] > operation.version
        }
    }

    /// What holds of a world at all times, what was reported included.
    pub open spec fn sound(self) -> bool {
        &&& self.valid()
        &&& forall|i: int| 0 <= i < self.operations.len() ==> #[trigger] self.report_holds(i)
    }

    /// Whether no operation on the file at `path` with a higher version than `version` was ever
    /// prepared.
    pub open spec fn none_newer(self, path: PathView, version: u64) -> bool {
        forall|other: u64| #[trigger]
            self.requests.contains_key(other) && self.requests[other].dest == path ==> other
                <= version
    }
}

/// What is known stays known: requests are kept, and the change of a file is never followed by that
/// of an older operation.
pub open spec fn grows(before: World, after: World) -> bool {
    &&& forall|version: u64| #[trigger]
        before.requests.contains_key(version) ==> after.requests.contains_key(version)
            && after.requests[version] == before.requests[version]
    &&& forall|path: PathView| #[trigger]
        before.changed.contains_key(path) ==> after.changed.contains_key(path)
            && after.changed[path] >= before.changed[path]
}

/// A step that ends well has the version, or a newer one, applied.
proof fn lemma_ends_well(job: Job, execution: ExecutionView, outcome: OutcomeView)
    requires
        execution_valid(job, execution),
    ensures
        ({
            let (now, step) = if execution.stage == Stage::Idle {
                begin(job, execution)
            } else {
                resume(job, execution, outcome)
            };
            step matches StepView::Finished(Ok(status)) ==> {
                &&& not_older(now.state.last_change(), Some(job.version))
                &&& status == FilesystemStoreOperationStatus::Superseded
                    ==> now.state.last_change()->0 > job.version
            }
        }),
{
}

/// A step of an operation makes no known thing unknown, and reports what is so.
proof fn lemma_step(world: World, happening: Happening, i: int)
    requires
        world.sound(),
        world.allows(happening),
        happening == Happening::Execute(i) || (happening is Resume && happening->Resume_0 == i),
    ensures
        grows(world, world.after(happening)),
        world.after(happening).report_holds(i),
{
    law_world_stays_valid(world, happening);
    let after = world.after(happening);
    let dest = world.operations[i].dest;
    assert(world.operation_valid(i));
    assert(world.lock_accounts(dest));
    let outcome = if happening is Resume {
        happening->Resume_1
    } else {
        OutcomeView::Completed
    };
    lemma_ends_well(world.job(i), world.execution(i), outcome);
    if world.operations[i].stage == Stage::Idle {
        lemma_begin_awaits(world.job(i), world.execution(i));
    } else {
        lemma_resume_state(world.job(i), world.execution(i), outcome);
    }
    assert(after.store.locks.contains_key(dest));
    assert(after.lock_accounts(dest));
}

/// Whatever happens, what was reported stays true, no request is forgotten, and no file goes back
/// to the change of an older operation.
pub proof fn law_world_stays_sound(world: World, happening: Happening)
    requires
        world.sound(),
        world.allows(happening),
    ensures
        world.after(happening).sound(),
        grows(world, world.after(happening)),
{
    law_world_stays_valid(world, happening);
    let after = world.after(happening);
    match happening {
        Happening::Execute(i) => lemma_step(world, happening, i),
        Happening::Resume(i, _, _, _) => lemma_step(world, happening, i),
        Happening::Prepare(_, _) => {
            assert forall|version: u64| #[trigger] world.requests.contains_key(
                version,
            ) implies after.requests.contains_key(version) && after.requests[version]
                == world.requests[version] by {}
        },
        _ => {},
    }
    assert forall|j: int| 0 <= j < after.operations.len() implies #[trigger] after.report_holds(
        j,
    ) by {
        match happening {
            Happening::Release(i) => {
                let k = if j < i {
                    j
                } else {
                    j + 1
                };
                assert(world.report_holds(k));
                assert(after.operations[j] == world.operations[k]);
                assert(after.steps[j] == world.steps[k]);
            },
            Happening::Execute(i) => {
                if j != i {
                    assert(world.report_holds(j));
                    assert(world.changed.contains_key(world.operations[j].dest)
                        ==> after.changed.contains_key(world.operations[j].dest));
                }
            },
            Happening::Resume(i, _, _, _) => {
                if j != i {
                    assert(world.report_holds(j));
                    assert(world.changed.contains_key(world.operations[j].dest)
                        ==> after.changed.contains_key(world.operations[j].dest));
                }
            },
            Happening::Prepare(_, _) => {
                if j < world.operations.len() {
                    assert(world.report_holds(j));
                }
            },
            _ => {
                assert(world.report_holds(j));
            },
        }
    }
}

/// The same over several happenings.
proof fn lemma_sound_all(world: World, happenings: Seq<Happening>)
    requires
        world.sound(),
        world.allows_all(happenings),
    ensures
        world.after_all(happenings).sound(),
        grows(world, world.after_all(happenings)),
    decreases happenings.len(),
{
    if happenings.len() > 0 {
        lemma_sound_all(world, happenings.drop_last());
        let before = world.after_all(happenings.drop_last());
        law_world_stays_sound(before, happenings.last());
        assert forall|version: u64| #[trigger] world.requests.contains_key(
            version,
        ) implies world.after_all(happenings).requests.contains_key(version)
            && world.after_all(happenings).requests[version] == world.requests[version] by {
            assert(before.requests.contains_key(version));
        }
        assert forall|path: PathView| #[trigger] world.changed.contains_key(
            path,
        ) implies world.after_all(happenings).changed.contains_key(path)
            && world.after_all(happenings).changed[path] >= world.changed[path] by {
            assert(before.changed.contains_key(path));
        }
    }
}

/// Whatever happens to a store that begins without operations, over whatever disk, what it reported
/// is true at all times.
pub proof fn law_reachable_worlds_are_sound(
    store: StoreView,
    disk: Disk,
    dirs: Set<PathView>,
    happenings: Seq<Happening>,
)
    requires
        store.locks == Map::<PathView, Lock>::empty(),
        World::start(store, disk, dirs).allows_all(happenings),
    ensures
        World::start(store, disk, dirs).after_all(happenings).sound(),
{
    lemma_sound_all(World::start(store, disk, dirs), happenings);
}

/// A file is changed last by the newest operation on it that ended well.
proof fn lemma_newest_changed(world: World, i: int, happenings: Seq<Happening>)
    requires
        world.sound(),
        0 <= i < world.operations.len(),
        world.ended_well(i),
        world.allows_all(happenings),
        world.after_all(happenings).none_newer(
            world.operations[i].dest,
            world.operations[i].version,
        ),
    ensures
        world.after_all(happenings).sound(),
        is_key_file(world.operations[i].dest),
        world.after_all(happenings).changed.contains_key(world.operations[i].dest),
        value(world.after_all(happenings).disk, world.operations[i].dest) == result_of(
            world.operations[i].mutation,
        ),
{
    let later = world.after_all(happenings);
    let operation = world.operations[i];
    lemma_sound_all(world, happenings);
    assert(world.report_holds(i));
    assert(world.operation_valid(i));
    assert(world.changed.contains_key(operation.dest));
    assert(later.changed.contains_key(operation.dest));
    assert(later.requests.contains_key(later.changed[operation.dest]));
    assert(world.requests.contains_key(operation.version));
    assert(value(later.disk, operation.dest) == later.accounted(operation.dest));
}

/// The newest version wins, with any number of operations and reads at work on any number of files:
/// once the newest operation on a file was reported to have ended well, the file holds what it
/// asked for, and keeps holding it for as long as no newer operation on that file is prepared,
/// whatever else happens.
pub proof fn law_newest_request_wins(world: World, i: int, happenings: Seq<Happening>)
    requires
        world.sound(),
        0 <= i < world.operations.len(),
        world.ended_well(i),
        world.allows_all(happenings),
        world.after_all(happenings).none_newer(
            world.operations[i].dest,
            world.operations[i].version,
        ),
    ensures
        value(world.after_all(happenings).disk, world.operations[i].dest) == result_of(
            world.operations[i].mutation,
        ),
{
    lemma_newest_changed(world, i, happenings);
}

/// An operation that is reported to have ended well was applied and not superseded, where no newer
/// operation on its file was prepared.
pub proof fn law_newest_request_is_applied(world: World, i: int)
    requires
        world.sound(),
        0 <= i < world.operations.len(),
        world.ended_well(i),
        world.none_newer(world.operations[i].dest, world.operations[i].version),
    ensures
        world.steps[i] == Some(StepView::Finished(Ok(FilesystemStoreOperationStatus::Applied))),
{
    assert(world.report_holds(i));
    let dest = world.operations[i].dest;
    assert(world.changed.contains_key(dest));
    assert(world.requests.contains_key(world.changed[dest]));
    match world.steps[i]->0->Finished_0->Ok_0 {
        FilesystemStoreOperationStatus::Applied => {},
        FilesystemStoreOperationStatus::Superseded => {},
    }
}

/// A read gives what was written: after a write that was reported to have ended well, what a read
/// of the key finds in the key's file is the value that was written, byte for byte, whatever
/// happened since to other keys, and whatever older operations on the key were executed.
pub proof fn law_read_gives_what_was_written(
    world: World,
    i: int,
    triple: KeyTriple,
    buf: Seq<u8>,
    happenings: Seq<Happening>,
    read: int,
)
    requires
        world.sound(),
        0 <= i < world.operations.len(),
        world.operations[i].dest == file_of(triple),
        world.operations[i].mutation == MutationView::Write(buf),
        world.ended_well(i),
        world.allows_all(happenings),
        world.after_all(happenings).none_newer(file_of(triple), world.operations[i].version),
        0 <= read < world.after_all(happenings).reads.len(),
        world.after_all(happenings).reads[read].path == file_of(triple),
    ensures
        value(
            world.after_all(happenings).disk,
            world.after_all(happenings).reads[read].path,
        ) == Some(buf),
{
    lemma_newest_changed(world, i, happenings);
}

/// A removed key is gone: after a removal, lazy or not, that was reported to have ended well, there
/// is no file for a read of the key to find, and neither a listing of its namespace nor a listing
/// of all keys holds it.
pub proof fn law_removed_key_is_gone(
    world: World,
    i: int,
    triple: KeyTriple,
    happenings: Seq<Happening>,
    base: PathView,
    nodes: Seq<Node>,
    all: Seq<KeyTriple>,
    inner: Seq<Node>,
    keys: Seq<Seq<char>>,
)
    requires
        world.sound(),
        0 <= i < world.operations.len(),
        is_allowed(triple),
        world.operations[i].dest == file_of(triple),
        world.operations[i].mutation is Remove,
        world.ended_well(i),
        world.allows_all(happenings),
        world.after_all(happenings).none_newer(file_of(triple), world.operations[i].version),
        well_placed(base, nodes),
        tells(nodes, world.after_all(happenings).disk),
    ensures
        value(world.after_all(happenings).disk, file_of(triple)) is None,
        tree_keys(base, seq![], nodes) == Ok::<Seq<KeyTriple>, ErrorView>(all) ==> !all.contains(
            triple,
        ),
        dir_at(nodes, dest_path(triple.0, triple.1, None)) == Some(inner) && dir_keys(
            base + dest_path(triple.0, triple.1, None),
            items_of(inner),
        ) == Ok::<Seq<Seq<char>>, ErrorView>(keys) ==> !keys.contains(triple.2),
{
    lemma_newest_changed(world, i, happenings);
    let disk = world.after_all(happenings).disk;
    if tree_keys(base, seq![], nodes) == Ok::<Seq<KeyTriple>, ErrorView>(all) {
        law_listing_of_all_keys_holds_each_file_once(base, nodes, all);
    }
    if dir_at(nodes, dest_path(triple.0, triple.1, None)) == Some(inner) && dir_keys(
        base + dest_path(triple.0, triple.1, None),
        items_of(inner),
    ) == Ok::<Seq<Seq<char>>, ErrorView>(keys) {
        law_listing_gives_what_is_stored(base, nodes, disk, triple.0, triple.1, inner, keys);
    }
}

/// Removing a key that has no file asks whether there is one, and touches nothing: the removal ends
/// well.
pub proof fn law_removal_of_a_missing_file_touches_nothing(job: Job, execution: ExecutionView)
    requires
        execution_valid(job, execution),
        execution.stage == Stage::Idle,
        execution.state.pending_durability is None,
        execution.state.last_change() matches Some(version) ==> version < job.version,
        settled(execution.state),
        job.mutation is Remove,
    ensures
        begin(job, execution).1 == StepView::Perform(ActionView::IsFile { path: job.dest }),
        resume(job, begin(job, execution).0, OutcomeView::Present(false)).1 == StepView::Finished(
            Ok(FilesystemStoreOperationStatus::Applied),
        ),
{
}

/// The file of a key changes only through an operation on that key: whatever else happens, it keeps
/// its contents.
pub proof fn law_other_keys_keep_their_values(world: World, happening: Happening, path: PathView)
    requires
        world.valid(),
        world.allows(happening),
        is_key_file(path),
        happening is Resume ==> world.operations[happening->Resume_0].dest != path,
    ensures
        value(world.after(happening).disk, path) == value(world.disk, path),
{
    match happening {
        Happening::Resume(i, outcome, disk, _) => {
            assert(world.operation_valid(i));
            let action = world.steps[i]->0->Perform_0;
            let dest = world.operations[i].dest;
            assert(owned(path, path));
            law_files_of_different_keys_are_apart(path, dest, path);
            lemma_untouched(
                world.job(i),
                world.execution(i),
                action,
                outcome,
                world.disk,
                disk,
                path,
            );
        },
        Happening::Discard(dir, name) => {
            law_artifacts_are_told_from_keys(path, 0, Artifact::Trash);
            assert(dir.push(name).last() == name);
        },
        _ => {},
    }
}

/// The store puts nothing on the disk but the files of keys, and artifacts.
pub proof fn law_disk_stays_the_stores_own(world: World, happening: Happening)
    requires
        world.valid(),
        world.allows(happening),
        is_stores_own(world.disk),
    ensures
        is_stores_own(world.after(happening).disk),
{
    if let Happening::Resume(i, outcome, disk, _) = happening {
        assert(world.operation_valid(i));
        let action = world.steps[i]->0->Perform_0;
        let dest = world.operations[i].dest;
        assert forall|path: PathView| #[trigger] disk.contains_key(path) implies is_key_file(path)
            || (path.len() > 0 && artifact_of(path.last()) is Some) by {
            if owned(dest, path) {
                if path != dest {
                    let (number, artifact) = choose|number: nat, artifact: Artifact|
                        path == #[trigger] artifact_path(dest, number, artifact);
                    law_artifacts_are_told_from_keys(dest, number, artifact);
                    lemma_key_file(dest);
                }
            } else {
                lemma_untouched(
                    world.job(i),
                    world.execution(i),
                    action,
                    outcome,
                    world.disk,
                    disk,
                    path,
                );
                assert(value(disk, path) is Some);
                assert(world.disk.contains_key(path));
            }
        }
    }
}

/// The store makes no directory but those that lead to the files of keys, the directories of
/// namespaces.
pub proof fn law_directories_lead_to_keys(world: World, happening: Happening)
    requires
        world.valid(),
        world.allows(happening),
        lead_to_keys(world.dirs),
    ensures
        lead_to_keys(world.after(happening).dirs),
{
    if let Happening::Resume(i, _, _, dirs) = happening {
        assert(world.operation_valid(i));
        let dest = world.operations[i].dest;
        assert forall|path: PathView| #[trigger] dirs.contains(path) implies leads_to_key(path) by {
            if !world.dirs.contains(path) {
                assert(is_key_file(dest) && path.is_prefix_of(dest.drop_last()));
            }
        }
    }
}

/// What the store puts on an empty disk is its own.
proof fn lemma_own_all(world: World, happenings: Seq<Happening>)
    requires
        world.sound(),
        world.allows_all(happenings),
        is_stores_own(world.disk),
        lead_to_keys(world.dirs),
    ensures
        is_stores_own(world.after_all(happenings).disk),
        lead_to_keys(world.after_all(happenings).dirs),
        world.after_all(happenings).initial == world.initial,
    decreases happenings.len(),
{
    if happenings.len() > 0 {
        let before = world.after_all(happenings.drop_last());
        lemma_own_all(world, happenings.drop_last());
        lemma_sound_all(world, happenings.drop_last());
        law_disk_stays_the_stores_own(before, happenings.last());
        law_directories_lead_to_keys(before, happenings.last());
    }
}

/// A write that was reported to have ended well has changed the key's file, or a newer operation on
/// it has, and that stays so.
pub proof fn law_written_file_stays_changed(world: World, i: int, happenings: Seq<Happening>)
    requires
        world.sound(),
        0 <= i < world.operations.len(),
        world.ended_well(i),
        world.allows_all(happenings),
    ensures
        world.after_all(happenings).changed.contains_key(world.operations[i].dest),
        world.after_all(happenings).changed[world.operations[i].dest]
            >= world.operations[i].version,
{
    lemma_sound_all(world, happenings);
    assert(world.report_holds(i));
}

/// Whether, after the first `n` of the happenings, the operation with index `i` is on the file at
/// `path` and was reported to have ended well.
pub open spec fn ended_well_at(
    world: World,
    happenings: Seq<Happening>,
    n: int,
    i: int,
    path: PathView,
) -> bool {
    let then = world.after_all(happenings.take(n));
    &&& 0 <= n <= happenings.len()
    &&& 0 <= i < then.operations.len()
    &&& then.operations[i].dest == path
    &&& then.ended_well(i)
}

/// A file of which a write was reported to have ended well at some time counts as changed.
proof fn lemma_changed_since(
    world: World,
    happenings: Seq<Happening>,
    n: int,
    i: int,
    path: PathView,
)
    requires
        world.sound(),
        world.allows_all(happenings),
        ended_well_at(world, happenings, n, i, path),
    ensures
        world.after_all(happenings).changed.contains_key(path),
    decreases happenings.len(),
{
    if n == happenings.len() {
        assert(happenings.take(n) =~= happenings);
        lemma_sound_all(world, happenings);
        assert(world.after_all(happenings).report_holds(i));
    } else {
        let front = happenings.drop_last();
        assert(front.take(n) =~= happenings.take(n));
        lemma_changed_since(world, front, n, i, path);
        lemma_sound_all(world, front);
        law_world_stays_sound(world.after_all(front), happenings.last());
    }
}

/// Nothing is lost by a migration: where a store began over an empty data directory, nothing but
/// writes of some keys was asked for, and for each of the keys a write was reported to have ended
/// well, a listing of all keys ends well and gives exactly those keys, each once.
pub proof fn law_written_keys_are_those_listed(
    store: StoreView,
    happenings: Seq<Happening>,
    written: Set<KeyTriple>,
    base: PathView,
    nodes: Seq<Node>,
)
    requires
        store.locks == Map::<PathView, Lock>::empty(),
        World::start(store, Map::empty(), Set::empty()).allows_all(happenings),
        forall|triple: KeyTriple| #[trigger]
            written.contains(triple) ==> is_allowed(triple) && exists|n: int, i: int| #[trigger]
                ended_well_at(
                    World::start(store, Map::empty(), Set::empty()),
                    happenings,
                    n,
                    i,
                    file_of(triple),
                ),
        forall|version: u64| #[trigger]
            World::start(store, Map::empty(), Set::empty()).after_all(
                happenings,
            ).requests.contains_key(version) ==> {
                let request = World::start(store, Map::empty(), Set::empty()).after_all(
                    happenings,
                ).requests[version];
                &&& request.mutation is Write
                &&& exists|triple: KeyTriple| #[trigger]
                    written.contains(triple) && file_of(triple) == request.dest
            },
        well_placed(base, nodes),
        tells(nodes, World::start(store, Map::empty(), Set::empty()).after_all(happenings).disk),
        tells_dirs(
            nodes,
            World::start(store, Map::empty(), Set::empty()).after_all(happenings).dirs,
        ),
    ensures
        tree_keys(base, seq![], nodes) is Ok,
        tree_keys(base, seq![], nodes)->Ok_0.no_duplicates(),
        forall|triple: KeyTriple| #[trigger]
            tree_keys(base, seq![], nodes)->Ok_0.contains(triple) <==> written.contains(triple),
{
    let world = World::start(store, Map::empty(), Set::empty());
    let later = world.after_all(happenings);
    lemma_sound_all(world, happenings);
    lemma_own_all(world, happenings);
    law_listing_of_all_keys_gives_what_is_stored(base, nodes, later.disk, later.dirs);
    assert forall|triple: KeyTriple| written.contains(
        triple,
    ) implies #[trigger] later.changed.contains_key(file_of(triple)) by {
        let path = file_of(triple);
        let (n, i) = choose|n: int, i: int| #[trigger]
            ended_well_at(world, happenings, n, i, path);
        lemma_changed_since(world, happenings, n, i, path);
    }
    assert forall|triple: KeyTriple| #[trigger] tree_keys(
        base,
        seq![],
        nodes,
    )->Ok_0.contains(triple) <==> written.contains(triple) by {
        let path = file_of(triple);
        if is_allowed(triple) {
            assert(is_key_file(path));
            assert(value(later.disk, path) == later.accounted(path));
            if later.changed.contains_key(path) {
                assert(later.requests.contains_key(later.changed[path]));
                let other = choose|other: KeyTriple| #[trigger]
                    written.contains(other) && file_of(other) == path;
                law_distinct_keys_have_distinct_files(
                    triple.0,
                    triple.1,
                    triple.2,
                    other.0,
                    other.1,
                    other.2,
                );
            }
        }
    }
}

} // verus!
