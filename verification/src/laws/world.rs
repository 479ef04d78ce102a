//! Laws on a store at work: any number of operations and reads on any number of files, prepared,
//! executed and released in any order, and a disk that follows.

use crate::action::{ActionView, OutcomeView, StepView};
use crate::execution::{ExecutionView, Job, MutationView, Stage};
use crate::execution::{begin, execution_valid, resume};
use crate::execution::{lemma_begin_valid, lemma_resume_valid};
use crate::laws::disk::Disk;
use crate::laws::disk::{
    awaits, disk_valid, not_older, owned, performed, result_of, touched, value,
};
use crate::laws::disk::{
    law_files_of_different_keys_are_apart, lemma_awaited_is_owned, lemma_begin_awaits,
    lemma_performed, lemma_resume_disk,
};
use crate::laws::names::{is_key_file, law_artifacts_are_told_from_keys, lemma_key_file};
use crate::listing::EntryFate;
use crate::locks::Lock;
use crate::locks::any_writing;
use crate::operation::prepared_operation;
use crate::path::{Artifact, PathView};
use crate::read::ReadView;
use crate::store::{OperationView, StoreView};
use vstd::prelude::*;

verus! {

/// What an operation asked for.
pub struct Request {
    pub dest: PathView,
    pub mutation: MutationView,
}

/// A store with the operations and reads that refer to it, the disk, and what happened so far.
pub struct World {
    pub store: StoreView,
    /// The operations that were prepared and not released.
    pub operations: Seq<OperationView>,
    /// What each of them came to last, if it was executed at all.
    pub steps: Seq<Option<StepView>>,
    /// The reads that were prepared and are not over.
    pub reads: Seq<ReadView>,
    pub disk: Disk,
    /// The directories on the disk, below the data directory.
    pub dirs: Set<PathView>,
    /// The disk at the beginning.
    pub initial: Disk,
    /// What the operation with each version asked for, released or not.
    pub requests: Map<u64, Request>,
    /// The version of the operation that changed a file last, for each file that was changed.
    pub changed: Map<PathView, u64>,
}

/// What can happen to a world.
pub enum Happening {
    /// An operation is prepared.
    Prepare(PathView, MutationView),
    /// The operation with this index begins to be executed.
    Execute(int),
    /// The action that the operation with this index asked for is performed, with this outcome and
    /// this disk and these directories afterwards, and the execution goes on.
    Resume(int, OutcomeView, Disk, Set<PathView>),
    /// The operation with this index is released.
    Release(int),
    /// A read is prepared.
    PrepareRead(PathView),
    /// The read with this index begins, unless the file is being changed.
    Read(int),
    /// The read with this index ends.
    FinishRead(int),
    /// The read with this index is given up before it has begun.
    ReleaseRead(int),
    /// A listing deletes a trash file.
    Discard(PathView, Seq<u8>),
}

/// How many of some flags are set.
pub open spec fn count(flags: Seq<bool>) -> nat
    decreases flags.len(),
{
    if flags.len() == 0 {
        0
    } else {
        count(flags.drop_last()) + if flags.last() {
            1nat
        } else {
            0
        }
    }
}

/// Which of the operations are on the file at `path`.
pub open spec fn operations_at(operations: Seq<OperationView>, path: PathView) -> Seq<bool> {
    Seq::new(operations.len(), |i: int| operations[i].dest == path)
}

/// Which of the reads are of the file at `path`.
pub open spec fn reads_at(reads: Seq<ReadView>, path: PathView) -> Seq<bool> {
    Seq::new(reads.len(), |i: int| reads[i].path == path)
}

/// Which of the reads read the file at `path` at the moment.
pub open spec fn reading_at(reads: Seq<ReadView>, path: PathView) -> Seq<bool> {
    Seq::new(reads.len(), |i: int| reads[i].path == path && reads[i].reading)
}

/// What each version asked for.
pub open spec fn mutations(requests: Map<u64, Request>) -> Map<u64, MutationView> {
    Map::new(
        |version: u64| requests.contains_key(version),
        |version: u64| requests[version].mutation,
    )
}

/// What an action does to the whole disk.
pub open spec fn performed_on(
    action: ActionView,
    outcome: OutcomeView,
    before: Disk,
    after: Disk,
) -> bool {
    forall|dest: PathView| #[trigger] performed(dest, action, outcome, before, after)
}

/// What an action does to the directories: only where directories are to be created can there be
/// new ones, and these lead to the one that was asked for. They are all there once it was created.
pub open spec fn made_dirs(
    action: ActionView,
    outcome: OutcomeView,
    before: Set<PathView>,
    after: Set<PathView>,
) -> bool {
    match action {
        ActionView::CreateDirAll { path: made } => {
            &&& forall|path: PathView| #[trigger]
                after.contains(path) ==> before.contains(path) || (path.len() > 0
                    && path.is_prefix_of(made))
            &&& forall|path: PathView| before.contains(path) ==> #[trigger] after.contains(path)
            &&& !(outcome is Failed) ==> forall|path: PathView|
                path.len() > 0 && path.is_prefix_of(made) ==> #[trigger] after.contains(path)
        },
        _ => after == before,
    }
}

impl World {
    /// A store without operations over a disk.
    pub open spec fn start(store: StoreView, disk: Disk, dirs: Set<PathView>) -> World {
        World {
            store,
            operations: seq![],
            steps: seq![],
            reads: seq![],
            disk,
            dirs,
            initial: disk,
            requests: Map::empty(),
            changed: Map::empty(),
        }
    }

    /// What the operation with the given index is about.
    pub open spec fn job(self, i: int) -> Job {
        self.operations[i].job(self.store.platform)
    }

    /// What the execution of the operation with the given index works on.
    pub open spec fn execution(self, i: int) -> ExecutionView {
        self.store.execution(self.operations[i])
    }

    /// Whether something can happen.
    pub open spec fn allows(self, happening: Happening) -> bool {
        match happening {
            Happening::Prepare(dest, _) => {
                &&& is_key_file(dest)
                &&& self.store.has_room(dest)
                &&& self.store.next_version < u64::MAX
            },
            Happening::Execute(i) => {
                &&& 0 <= i < self.operations.len()
                &&& self.operations[i].stage == Stage::Idle
            },
            Happening::Resume(i, outcome, disk, dirs) => {
                &&& 0 <= i < self.operations.len()
                &&& self.operations[i].stage != Stage::Idle
                &&& self.steps[i] matches Some(StepView::Perform(action)) && performed_on(
                    action,
                    outcome,
                    self.disk,
                    disk,
                ) && made_dirs(action, outcome, self.dirs, dirs)
            },
            Happening::Release(i) => {
                &&& 0 <= i < self.operations.len()
                &&& self.operations[i].stage == Stage::Idle
            },
            Happening::PrepareRead(path) => is_key_file(path) && self.store.has_room(path),
            Happening::Read(i) => 0 <= i < self.reads.len() && !self.reads[i].reading,
            Happening::FinishRead(i) => 0 <= i < self.reads.len() && self.reads[i].reading,
            Happening::ReleaseRead(i) => 0 <= i < self.reads.len() && !self.reads[i].reading,
            Happening::Discard(dir, name) => self.store.entry_fate(dir, name)
                == EntryFate::Discard,
        }
    }

    /// The world after a step of the operation with the given index.
    pub open spec fn stepped(
        self,
        i: int,
        execution: ExecutionView,
        step: StepView,
        disk: Disk,
        dirs: Set<PathView>,
    ) -> World {
        let dest = self.operations[i].dest;
        World {
            store: self.store.after(dest, execution, step),
            operations: self.operations.update(i, self.operations[i].after(execution)),
            steps: self.steps.update(i, Some(step)),
            disk,
            dirs,
            changed: if execution.state.last_change() == self.store.locks[dest].state.last_change() {
                self.changed
            } else {
                self.changed.insert(dest, execution.state.last_change()->0)
            },
            ..self
        }
    }

    /// The world after something happened.
    pub open spec fn after(self, happening: Happening) -> World {
        match happening {
            Happening::Prepare(dest, mutation) => World {
                store: self.store.prepared(dest),
                operations: self.operations.push(prepared_operation(self.store, dest, mutation)),
                steps: self.steps.push(None),
                requests: self.requests.insert(
                    self.store.next_version,
                    Request { dest, mutation },
                ),
                ..self
            },
            Happening::Execute(i) => if self.store.locks[self.operations[i].dest].busy() {
                World { steps: self.steps.update(i, Some(StepView::Wait)), ..self }
            } else {
                let (execution, step) = begin(self.job(i), self.execution(i));
                self.stepped(i, execution, step, self.disk, self.dirs)
            },
            Happening::Resume(i, outcome, disk, dirs) => {
                let (execution, step) = resume(self.job(i), self.execution(i), outcome);
                self.stepped(i, execution, step, disk, dirs)
            },
            Happening::Release(i) => World {
                store: self.store.released(self.operations[i].dest),
                operations: self.operations.remove(i),
                steps: self.steps.remove(i),
                ..self
            },
            Happening::PrepareRead(path) => World {
                store: self.store.referring(path),
                reads: self.reads.push(ReadView { path, reading: false }),
                ..self
            },
            Happening::Read(i) => if self.store.locks[self.reads[i].path].writing {
                self
            } else {
                World {
                    store: self.store.reading(self.reads[i].path),
                    reads: self.reads.update(i, ReadView { reading: true, ..self.reads[i] }),
                    ..self
                }
            },
            Happening::FinishRead(i) => World {
                store: self.store.done_reading(self.reads[i].path).released(self.reads[i].path),
                reads: self.reads.remove(i),
                ..self
            },
            Happening::ReleaseRead(i) => World {
                store: self.store.released(self.reads[i].path),
                reads: self.reads.remove(i),
                ..self
            },
            Happening::Discard(dir, name) => World {
                disk: self.disk.remove(dir.push(name)),
                ..self
            },
        }
    }

    /// The world after several things happened.
    pub open spec fn after_all(self, happenings: Seq<Happening>) -> World
        decreases happenings.len(),
    {
        if happenings.len() == 0 {
            self
        } else {
            self.after_all(happenings.drop_last()).after(happenings.last())
        }
    }

    /// Whether several things can happen one after the other.
    pub open spec fn allows_all(self, happenings: Seq<Happening>) -> bool
        decreases happenings.len(),
    {
        happenings.len() == 0 || {
            &&& self.allows_all(happenings.drop_last())
            &&& self.after_all(happenings.drop_last()).allows(happenings.last())
        }
    }

    /// Whether an operation is the one that was requested, and stands where it can go on.
    pub open spec fn operation_valid(self, i: int) -> bool {
        let operation = self.operations[i];
        &&& is_key_file(operation.dest)
        &&& self.store.locks.contains_key(operation.dest)
        &&& execution_valid(self.job(i), self.execution(i))
        &&& self.requests.contains_key(operation.version)
        &&& self.requests[operation.version].dest == operation.dest
        &&& self.requests[operation.version].mutation == operation.mutation
        &&& operation.stage != Stage::Idle ==> {
            &&& self.steps[i] matches Some(StepView::Perform(action)) && awaits(
                self.job(i),
                self.execution(i),
                action,
            )
            &&& holds_temporary(self.job(i), self.execution(i), self.disk)
        }
    }

    /// Whether the lock of a file counts those who refer to the file, those who read it, and the
    /// one who changes it.
    pub open spec fn lock_counts(self, path: PathView) -> bool {
        let lock = self.store.locks[path];
        &&& lock.refs == count(operations_at(self.operations, path)) + count(
            reads_at(self.reads, path),
        )
        &&& lock.readers == count(reading_at(self.reads, path))
        &&& lock.writing <==> exists|i: int|
            0 <= i < self.operations.len() && (#[trigger] self.operations[i]).dest == path
                && self.operations[i].stage != Stage::Idle
    }

    /// What a file holds by the account of the changes that were made.
    pub open spec fn accounted(self, path: PathView) -> Option<Seq<u8>> {
        if self.changed.contains_key(path) {
            result_of(self.requests[self.changed[path]].mutation)
        } else {
            value(self.initial, path)
        }
    }

    /// Whether what is remembered of a file agrees with the account of the changes.
    pub open spec fn lock_accounts(self, path: PathView) -> bool {
        match self.store.locks[path].state.last_change() {
            Some(version) => self.changed.contains_key(path) && self.changed[path] == version,
            None => self.changed.contains_key(path) ==> forall|i: int|
                0 <= i < self.operations.len() && (#[trigger] self.operations[i]).dest == path
                    ==> self.changed[path] < self.operations[i].version,
        }
    }

    /// What holds of the operations and reads.
    pub open spec fn parties_valid(self) -> bool {
        &&& self.steps.len() == self.operations.len()
        &&& forall|i: int| 0 <= i < self.operations.len() ==> #[trigger] self.operation_valid(i)
        &&& forall|i: int, j: int|
            0 <= i < j < self.operations.len() && (#[trigger] self.operations[i]).dest == (
            #[trigger] self.operations[j]).dest ==> self.operations[i].stage == Stage::Idle
                || self.operations[j].stage == Stage::Idle
        &&& forall|i: int|
            0 <= i < self.reads.len() ==> self.store.locks.contains_key(
                (#[trigger] self.reads[i]).path,
            )
    }

    /// What holds of the store.
    pub open spec fn store_valid(self) -> bool {
        &&& self.store.valid()
        &&& forall|path: PathView| #[trigger]
            self.store.locks.contains_key(path) ==> self.lock_counts(path) && self.lock_accounts(
                path,
            )
    }

    /// What holds of the past and of the disk.
    pub open spec fn past_valid(self) -> bool {
        &&& forall|version: u64| #[trigger]
            self.requests.contains_key(version) ==> version < self.store.next_version
        &&& forall|path: PathView| #[trigger]
            self.changed.contains_key(path) ==> self.requests.contains_key(self.changed[path])
                && self.requests[self.changed[path]].dest == path
        &&& forall|path: PathView| #[trigger]
            is_key_file(path) ==> value(self.disk, path) == self.accounted(path)
    }

    /// What holds of a world at all times.
    pub open spec fn valid(self) -> bool {
        self.store_valid() && self.parties_valid() && self.past_valid()
    }
}

/// Whether the temporary file holds the value that is about to replace the file.
pub open spec fn holds_temporary(job: Job, execution: ExecutionView, disk: Disk) -> bool {
    match execution.stage {
        Stage::CheckingDestination { number } | Stage::Replacing { number } => value(
            disk,
            job.temporary(number),
        ) == result_of(job.mutation),
        _ => true,
    }
}

proof fn lemma_count_push(flags: Seq<bool>, flag: bool)
    ensures
        count(flags.push(flag)) == count(flags) + if flag {
            1nat
        } else {
            0
        },
{
    assert(flags.push(flag).drop_last() =~= flags);
}

proof fn lemma_count_update(flags: Seq<bool>, i: int, flag: bool)
    requires
        0 <= i < flags.len(),
    ensures
        count(flags.update(i, flag)) + (if flags[i] {
            1nat
        } else {
            0
        }) == count(flags) + if flag {
            1nat
        } else {
            0
        },
    decreases flags.len(),
{
    if i == flags.len() - 1 {
        assert(flags.update(i, flag).drop_last() =~= flags.drop_last());
    } else {
        assert(flags.update(i, flag).drop_last() =~= flags.drop_last().update(i, flag));
        lemma_count_update(flags.drop_last(), i, flag);
    }
}

proof fn lemma_count_remove(flags: Seq<bool>, i: int)
    requires
        0 <= i < flags.len(),
    ensures
        count(flags.remove(i)) + (if flags[i] {
            1nat
        } else {
            0
        }) == count(flags),
    decreases flags.len(),
{
    if i == flags.len() - 1 {
        assert(flags.remove(i) =~= flags.drop_last());
    } else {
        assert(flags.remove(i).drop_last() =~= flags.drop_last().remove(i));
        lemma_count_remove(flags.drop_last(), i);
    }
}

/// As many flags are set as are known to be.
proof fn lemma_count_set(flags: Seq<bool>, i: int, j: int)
    requires
        0 <= i < flags.len(),
        0 <= j < flags.len(),
        flags[i],
        flags[j],
    ensures
        count(flags) >= if i == j {
            1nat
        } else {
            2
        },
{
    lemma_count_remove(flags, i);
    if i < j {
        assert(flags.remove(i)[j - 1] == flags[j]);
        lemma_count_remove(flags.remove(i), j - 1);
    }
    if j < i {
        assert(flags.remove(i)[j] == flags[j]);
        lemma_count_remove(flags.remove(i), j);
    }
}

/// At most as many flags are set as there are reads of the file.
proof fn lemma_reading_count(reads: Seq<ReadView>, path: PathView)
    ensures
        count(reading_at(reads, path)) <= count(reads_at(reads, path)),
    decreases reads.len(),
{
    if reads.len() > 0 {
        assert(reading_at(reads, path).drop_last() =~= reading_at(reads.drop_last(), path));
        assert(reads_at(reads, path).drop_last() =~= reads_at(reads.drop_last(), path));
        lemma_reading_count(reads.drop_last(), path);
    }
}

/// A read that has not begun is one more than those that have.
proof fn lemma_waiting_read(reads: Seq<ReadView>, i: int)
    requires
        0 <= i < reads.len(),
        !reads[i].reading,
    ensures
        count(reading_at(reads, reads[i].path)) < count(reads_at(reads, reads[i].path)),
{
    let path = reads[i].path;
    lemma_count_remove(reading_at(reads, path), i);
    lemma_count_remove(reads_at(reads, path), i);
    assert(reading_at(reads, path).remove(i) =~= reading_at(reads.remove(i), path));
    assert(reads_at(reads, path).remove(i) =~= reads_at(reads.remove(i), path));
    lemma_reading_count(reads.remove(i), path);
}

/// Every operation that was prepared and not released, and every read that is not over, stays
/// attached to the store, however many there are: each can always be executed, go on and be
/// released.
pub proof fn law_all_stay_attached(world: World)
    requires
        world.valid(),
    ensures
        forall|i: int|
            0 <= i < world.operations.len() ==> world.store.attached(
                #[trigger] world.operations[i],
            ),
        forall|i: int|
            0 <= i < world.reads.len() ==> world.store.attached_read(#[trigger] world.reads[i]),
{
    assert forall|i: int| 0 <= i < world.operations.len() implies world.store.attached(
        #[trigger] world.operations[i],
    ) by {
        assert(world.operation_valid(i));
        let operation = world.operations[i];
        let path = operation.dest;
        assert(world.lock_counts(path));
        assert(world.requests.contains_key(operation.version));
        lemma_reading_count(world.reads, path);
        let flags = operations_at(world.operations, path);
        lemma_count_set(flags, i, i);
        if operation.stage == Stage::Idle && world.store.locks[path].writing {
            let j = choose|j: int|
                0 <= j < world.operations.len() && (#[trigger] world.operations[j]).dest == path
                    && world.operations[j].stage != Stage::Idle;
            lemma_count_set(flags, i, j);
        }
    }
    assert forall|i: int| 0 <= i < world.reads.len() implies world.store.attached_read(
        #[trigger] world.reads[i],
    ) by {
        let path = world.reads[i].path;
        assert(world.store.locks.contains_key(path));
        assert(world.lock_counts(path));
        if world.reads[i].reading {
            lemma_count_set(reading_at(world.reads, path), i, i);
        } else {
            lemma_waiting_read(world.reads, i);
            if world.store.locks[path].writing {
                let j = choose|j: int|
                    0 <= j < world.operations.len() && (#[trigger] world.operations[j]).dest
                        == path && world.operations[j].stage != Stage::Idle;
                lemma_count_set(operations_at(world.operations, path), j, j);
            }
        }
    }
}

/// The number of the next artifact does not bear on whether an execution is valid.
proof fn lemma_counter(job: Job, execution: ExecutionView, counter: usize)
    requires
        execution_valid(job, execution),
    ensures
        execution_valid(job, ExecutionView { counter, ..execution }),
        forall|action: ActionView| #[trigger]
            awaits(job, execution, action) ==> awaits(
                job,
                ExecutionView { counter, ..execution },
                action,
            ),
{
}

/// Preparing an operation keeps a world valid.
proof fn lemma_prepare(world: World, dest: PathView, mutation: MutationView)
    requires
        world.valid(),
        world.allows(Happening::Prepare(dest, mutation)),
    ensures
        world.after(Happening::Prepare(dest, mutation)).valid(),
{
    let after = world.after(Happening::Prepare(dest, mutation));
    let n = world.operations.len() as int;
    lemma_key_file(dest);
    assert(after.operations[n] == prepared_operation(world.store, dest, mutation));
    assert forall|path: PathView| #[trigger] after.store.locks.contains_key(path) implies {
        &&& after.store.lock_valid(path, after.store.locks[path])
        &&& after.lock_counts(path)
        &&& after.lock_accounts(path)
    } by {
        let flags = operations_at(world.operations, path);
        assert(operations_at(after.operations, path) =~= flags.push(path == dest));
        lemma_count_push(flags, path == dest);
        if world.store.locks.contains_key(path) {
            assert(world.store.lock_valid(path, world.store.locks[path]));
            assert(world.lock_counts(path) && world.lock_accounts(path));
        } else {
            lemma_none_at(world, path);
        }
        if exists|i: int|
            0 <= i < world.operations.len() && (#[trigger] world.operations[i]).dest == path
                && world.operations[i].stage != Stage::Idle {
            let i = choose|i: int|
                0 <= i < world.operations.len() && (#[trigger] world.operations[i]).dest == path
                    && world.operations[i].stage != Stage::Idle;
            assert(after.operations[i] == world.operations[i]);
        }
        assert forall|i: int|
            0 <= i < after.operations.len() && (#[trigger] after.operations[i]).dest == path
                && after.store.locks[path].state.last_change() is None
                && after.changed.contains_key(path) implies after.changed[path]
            < after.operations[i].version by {
            if i < n {
                assert(after.operations[i] == world.operations[i]);
            } else {
                assert(world.requests.contains_key(world.changed[path]));
            }
        }
    }
    assert forall|i: int| 0 <= i < after.operations.len() implies #[trigger] after.operation_valid(
        i,
    ) by {
        if i < n {
            assert(world.operation_valid(i));
            assert(after.operations[i] == world.operations[i]);
            assert(after.steps[i] == world.steps[i]);
            assert(world.requests.contains_key(world.operations[i].version));
        } else {
            assert(after.store.lock_valid(dest, after.store.locks[dest]));
        }
    }
    assert forall|i: int, j: int|
        0 <= i < j < after.operations.len() && (#[trigger] after.operations[i]).dest == (
        #[trigger] after.operations[j]).dest implies after.operations[i].stage == Stage::Idle
        || after.operations[j].stage == Stage::Idle by {
        if j < n {
            assert(after.operations[i] == world.operations[i]);
            assert(after.operations[j] == world.operations[j]);
        }
    }
    assert forall|path: PathView| #[trigger] after.changed.contains_key(
        path,
    ) implies after.requests.contains_key(after.changed[path])
        && after.requests[after.changed[path]].dest == path by {
        assert(world.changed.contains_key(path));
        assert(world.requests.contains_key(world.changed[path]));
    }
    assert forall|path: PathView| #[trigger] is_key_file(path) implies value(after.disk, path)
        == after.accounted(path) by {
        assert(value(world.disk, path) == world.accounted(path));
        if world.changed.contains_key(path) {
            assert(world.requests.contains_key(world.changed[path]));
        }
    }
}

/// A file that the table does not hold is one that nobody refers to.
proof fn lemma_none_at(world: World, path: PathView)
    requires
        world.valid(),
        !world.store.locks.contains_key(path),
    ensures
        count(operations_at(world.operations, path)) == 0,
        count(reads_at(world.reads, path)) == 0,
        count(reading_at(world.reads, path)) == 0,
        forall|i: int|
            0 <= i < world.operations.len() ==> (#[trigger] world.operations[i]).dest != path,
{
    assert forall|i: int| 0 <= i < world.operations.len() implies (
    #[trigger] world.operations[i]).dest != path by {
        assert(world.operation_valid(i));
    }
    lemma_count_none(operations_at(world.operations, path));
    lemma_count_none(reads_at(world.reads, path));
    lemma_reading_count(world.reads, path);
}

proof fn lemma_count_none(flags: Seq<bool>)
    requires
        forall|i: int| 0 <= i < flags.len() ==> !#[trigger] flags[i],
    ensures
        count(flags) == 0,
    decreases flags.len(),
{
    if flags.len() > 0 {
        lemma_count_none(flags.drop_last());
    }
}

/// A step of an operation keeps a world valid.
proof fn lemma_stepped(
    world: World,
    i: int,
    execution: ExecutionView,
    step: StepView,
    disk: Disk,
    dirs: Set<PathView>,
)
    requires
        world.valid(),
        0 <= i < world.operations.len(),
        world.operations[i].stage == Stage::Idle
            ==> !world.store.locks[world.operations[i].dest].busy(),
        execution_valid(world.job(i), execution),
        step is Finished <==> execution.stage == Stage::Idle,
        !(step is Wait),
        step matches StepView::Perform(action) ==> awaits(world.job(i), execution, action),
        disk_valid(
            world.job(i),
            execution,
            mutations(world.requests),
            value(world.disk, world.operations[i].dest),
            disk,
        ),
        execution.state.last_change() == world.execution(i).state.last_change()
            || execution.state.last_change() == Some(world.operations[i].version),
        execution.state.latest_operation matches Some(latest) ==> latest.version
            < world.store.next_version,
        forall|path: PathView|
            !owned(world.operations[i].dest, path) ==> #[trigger] value(disk, path) == value(
                world.disk,
                path,
            ),
    ensures
        world.stepped(i, execution, step, disk, dirs).valid(),
{
    let after = world.stepped(i, execution, step, disk, dirs);
    let operation = world.operations[i];
    let dest = operation.dest;
    assert(world.operation_valid(i));
    assert(world.lock_counts(dest) && world.lock_accounts(dest));
    assert(world.store.lock_valid(dest, world.store.locks[dest]));
    assert(after.operations[i] == operation.after(execution));
    assert(mutations(world.requests)[operation.version] == operation.mutation);
    if world.store.locks[dest].writing {
        law_all_stay_attached(world);
    }
    lemma_stepped_store(world, i, execution, step, disk, dirs);
    lemma_stepped_parties(world, i, execution, step, disk, dirs);
    assert forall|path: PathView| #[trigger] after.changed.contains_key(
        path,
    ) implies after.requests.contains_key(after.changed[path])
        && after.requests[after.changed[path]].dest == path by {
        if path != dest {
            assert(world.changed.contains_key(path));
        }
        if world.changed.contains_key(path) {
            assert(world.requests.contains_key(world.changed[path]));
        }
    }
    assert forall|path: PathView| #[trigger] is_key_file(path) implies value(after.disk, path)
        == after.accounted(path) by {
        assert(value(world.disk, path) == world.accounted(path));
        if path != dest {
            assert(owned(path, path));
            if owned(dest, path) {
                law_files_of_different_keys_are_apart(path, dest, path);
            }
        } else if world.changed.contains_key(path) {
            assert(world.requests.contains_key(world.changed[path]));
        }
    }
}

/// A step of an operation keeps the store valid.
proof fn lemma_stepped_store(
    world: World,
    i: int,
    execution: ExecutionView,
    step: StepView,
    disk: Disk,
    dirs: Set<PathView>,
)
    requires
        world.valid(),
        0 <= i < world.operations.len(),
        world.operations[i].stage == Stage::Idle
            ==> !world.store.locks[world.operations[i].dest].busy(),
        execution_valid(world.job(i), execution),
        step is Finished <==> execution.stage == Stage::Idle,
        execution.state.last_change() == world.execution(i).state.last_change()
            || execution.state.last_change() == Some(world.operations[i].version),
        execution.state.latest_operation matches Some(latest) ==> latest.version
            < world.store.next_version,
    ensures
        world.stepped(i, execution, step, disk, dirs).store_valid(),
{
    let after = world.stepped(i, execution, step, disk, dirs);
    let operation = world.operations[i];
    let dest = operation.dest;
    assert(world.operation_valid(i));
    assert(world.lock_counts(dest) && world.lock_accounts(dest));
    assert(world.store.lock_valid(dest, world.store.locks[dest]));
    law_all_stay_attached(world);
    assert(world.store.attached(world.operations[i]));
    assert forall|path: PathView| #[trigger] after.store.locks.contains_key(path) implies {
        &&& after.store.lock_valid(path, after.store.locks[path])
        &&& after.lock_counts(path)
        &&& after.lock_accounts(path)
    } by {
        assert(world.store.locks.contains_key(path));
        assert(world.store.lock_valid(path, world.store.locks[path]));
        assert(world.lock_counts(path) && world.lock_accounts(path));
        assert(operations_at(after.operations, path) =~= operations_at(world.operations, path));
        if path != dest {
            if exists|j: int|
                0 <= j < world.operations.len() && (#[trigger] world.operations[j]).dest == path
                    && world.operations[j].stage != Stage::Idle {
                let j = choose|j: int|
                    0 <= j < world.operations.len() && (#[trigger] world.operations[j]).dest
                        == path && world.operations[j].stage != Stage::Idle;
                assert(after.operations[j] == world.operations[j]);
            }
            assert forall|j: int|
                0 <= j < after.operations.len() && (
                #[trigger] after.operations[j]).dest == path implies after.operations[j]
                == world.operations[j] by {}
        } else {
            assert(after.operations[i].dest == path);
            assert forall|j: int|
                0 <= j < after.operations.len() && (#[trigger] after.operations[j]).dest == path
                    && j != i implies after.operations[j].stage == Stage::Idle by {
                assert(after.operations[j] == world.operations[j]);
                assert(world.operations[i].dest == world.operations[j].dest);
            }
        }
    }
}

/// A step of an operation keeps the operations and reads valid.
proof fn lemma_stepped_parties(
    world: World,
    i: int,
    execution: ExecutionView,
    step: StepView,
    disk: Disk,
    dirs: Set<PathView>,
)
    requires
        world.valid(),
        0 <= i < world.operations.len(),
        world.operations[i].stage == Stage::Idle
            ==> !world.store.locks[world.operations[i].dest].busy(),
        execution_valid(world.job(i), execution),
        step is Finished <==> execution.stage == Stage::Idle,
        !(step is Wait),
        step matches StepView::Perform(action) ==> awaits(world.job(i), execution, action),
        holds_temporary(world.job(i), execution, disk),
        forall|path: PathView|
            !owned(world.operations[i].dest, path) ==> #[trigger] value(disk, path) == value(
                world.disk,
                path,
            ),
    ensures
        world.stepped(i, execution, step, disk, dirs).parties_valid(),
{
    let after = world.stepped(i, execution, step, disk, dirs);
    let operation = world.operations[i];
    let dest = operation.dest;
    assert(world.operation_valid(i));
    assert(world.lock_counts(dest));
    assert(after.operations[i] == operation.after(execution));
    assert forall|j: int|
        0 <= j < world.operations.len() && j != i && (#[trigger] world.operations[j]).dest
            == dest implies world.operations[j].stage == Stage::Idle by {
        assert(world.operations[i].dest == world.operations[j].dest);
    }
    assert forall|j: int| 0 <= j < after.operations.len() implies #[trigger] after.operation_valid(
        j,
    ) by {
        assert(world.operation_valid(j));
        if j == i {
            assert(after.execution(i) == execution);
            assert(after.job(i) == world.job(i));
        } else {
            let other = world.operations[j];
            assert(after.operations[j] == other);
            assert(after.steps[j] == world.steps[j]);
            if other.dest == dest {
                assert(other.stage == Stage::Idle);
            } else {
                lemma_counter(world.job(j), world.execution(j), execution.counter);
                assert(after.execution(j) == (ExecutionView {
                    counter: execution.counter,
                    ..world.execution(j)
                }));
                match other.stage {
                    Stage::CheckingDestination { number } | Stage::Replacing { number } => {
                        let path = world.job(j).temporary(number);
                        assert(owned(other.dest, path));
                        law_files_of_different_keys_are_apart(other.dest, dest, path);
                    },
                    _ => {},
                }
            }
        }
    }
    assert forall|j: int, k: int|
        0 <= j < k < after.operations.len() && (#[trigger] after.operations[j]).dest == (
        #[trigger] after.operations[k]).dest implies after.operations[j].stage == Stage::Idle
        || after.operations[k].stage == Stage::Idle by {
        assert(world.operations[j].dest == world.operations[k].dest);
    }
}

/// The disk is as every operation expects it.
proof fn lemma_disk_as_expected(world: World, i: int)
    requires
        world.valid(),
        0 <= i < world.operations.len(),
    ensures
        disk_valid(
            world.job(i),
            world.execution(i),
            mutations(world.requests),
            value(world.disk, world.operations[i].dest),
            world.disk,
        ),
{
    assert(world.operation_valid(i));
    let dest = world.operations[i].dest;
    assert(world.lock_accounts(dest));
    assert(value(world.disk, dest) == world.accounted(dest));
    if world.changed.contains_key(dest) {
        assert(world.requests.contains_key(world.changed[dest]));
    }
}

/// Beginning an execution keeps a world valid.
proof fn lemma_execute(world: World, i: int)
    requires
        world.valid(),
        world.allows(Happening::Execute(i)),
    ensures
        world.after(Happening::Execute(i)).valid(),
{
    let after = world.after(Happening::Execute(i));
    let dest = world.operations[i].dest;
    assert(world.operation_valid(i));
    if world.store.locks[dest].busy() {
        assert forall|path: PathView| #[trigger] after.store.locks.contains_key(
            path,
        ) implies after.lock_counts(path) && after.lock_accounts(path) by {
            assert(world.lock_counts(path) && world.lock_accounts(path));
        }
        assert forall|j: int| 0 <= j < after.operations.len() implies #[trigger] after.operation_valid(
            j,
        ) by {
            assert(world.operation_valid(j));
        }
        assert forall|path: PathView| #[trigger] is_key_file(path) implies value(after.disk, path)
            == after.accounted(path) by {
            assert(value(world.disk, path) == world.accounted(path));
        }
    } else {
        let (execution, step) = begin(world.job(i), world.execution(i));
        assert(world.store.lock_valid(dest, world.store.locks[dest]));
        assert(world.requests.contains_key(world.operations[i].version));
        lemma_begin_valid(world.job(i), world.execution(i));
        lemma_begin_awaits(world.job(i), world.execution(i));
        lemma_disk_as_expected(world, i);
        lemma_stepped(world, i, execution, step, world.disk, world.dirs);
    }
}

/// What a step does to what is remembered of a file.
pub proof fn lemma_resume_state(job: Job, execution: ExecutionView, outcome: OutcomeView)
    requires
        execution_valid(job, execution),
        execution.stage != Stage::Idle,
    ensures
        ({
            let now = resume(job, execution, outcome).0.state;
            &&& now.last_change() == execution.state.last_change() || now.last_change() == Some(
                job.version,
            )
            &&& not_older(now.last_change(), execution.state.last_change())
            &&& now.latest_operation == execution.state.latest_operation || (
            now.latest_operation is Some && now.latest_operation->0.version == job.version) || (
            now.latest_operation is Some && execution.state.latest_operation is Some
                && now.latest_operation->0.version == execution.state.latest_operation->0.version)
        }),
{
}

/// Going on with an execution keeps a world valid.
proof fn lemma_resume(
    world: World,
    i: int,
    outcome: OutcomeView,
    disk: Disk,
    dirs: Set<PathView>,
)
    requires
        world.valid(),
        world.allows(Happening::Resume(i, outcome, disk, dirs)),
    ensures
        world.after(Happening::Resume(i, outcome, disk, dirs)).valid(),
{
    let dest = world.operations[i].dest;
    let job = world.job(i);
    assert(world.operation_valid(i));
    let action = world.steps[i]->0->Perform_0;
    let (execution, step) = resume(job, world.execution(i), outcome);
    assert(world.store.lock_valid(dest, world.store.locks[dest]));
    assert(world.requests.contains_key(world.operations[i].version));
    lemma_resume_valid(job, world.execution(i), outcome);
    lemma_resume_state(job, world.execution(i), outcome);
    lemma_disk_as_expected(world, i);
    assert(performed(dest, action, outcome, world.disk, disk));
    lemma_resume_disk(
        job,
        world.execution(i),
        mutations(world.requests),
        value(world.disk, dest),
        action,
        outcome,
        world.disk,
        disk,
    );
    assert forall|path: PathView| !owned(dest, path) implies #[trigger] value(disk, path) == value(
        world.disk,
        path,
    ) by {
        lemma_untouched(job, world.execution(i), action, outcome, world.disk, disk, path);
    }
    lemma_stepped(world, i, execution, step, disk, dirs);
}

/// An awaited action leaves every path alone that is not its file's.
pub proof fn lemma_untouched(
    job: Job,
    execution: ExecutionView,
    action: ActionView,
    outcome: OutcomeView,
    before: Disk,
    after: Disk,
    path: PathView,
)
    requires
        awaits(job, execution, action),
        performed_on(action, outcome, before, after),
        !owned(job.dest, path),
    ensures
        value(after, path) == value(before, path),
{
    assert(performed(path, action, outcome, before, after));
    assert(owned(path, path));
    lemma_performed(path, action, outcome, before, after, path);
    if touched(action, path) {
        lemma_awaited_is_owned(job, execution, action, path);
    }
}

/// The table after a reference was given up: the lock of the file is gone, or has one reference
/// less.
proof fn lemma_released(store: StoreView, path: PathView)
    requires
        store.valid(),
        store.locks.contains_key(path),
        store.locks[path].users() < store.locks[path].refs,
    ensures
        store.released(path).valid(),
        forall|p: PathView| #[trigger]
            store.released(path).locks.contains_key(p) ==> store.locks.contains_key(p)
                && store.released(path).locks[p] == if p == path {
                Lock { refs: (store.locks[p].refs - 1) as usize, ..store.locks[p] }
            } else {
                store.locks[p]
            },
        !store.released(path).locks.contains_key(path) ==> store.locks[path].refs == 1,
        forall|p: PathView|
            p != path && store.locks.contains_key(p) ==> #[trigger] store.released(
                path,
            ).locks.contains_key(p),
{
    assert(store.lock_valid(path, store.locks[path]));
    assert forall|p: PathView| #[trigger] store.released(path).locks.contains_key(
        p,
    ) implies store.released(path).lock_valid(p, store.released(path).locks[p]) by {
        assert(store.lock_valid(p, store.locks[p]));
    }
}

/// Releasing an operation keeps a world valid.
proof fn lemma_release(world: World, i: int)
    requires
        world.valid(),
        world.allows(Happening::Release(i)),
    ensures
        world.after(Happening::Release(i)).valid(),
{
    let after = world.after(Happening::Release(i));
    let dest = world.operations[i].dest;
    assert(world.operation_valid(i));
    law_all_stay_attached(world);
    assert(world.store.attached(world.operations[i]));
    lemma_released(world.store, dest);
    assert forall|path: PathView| #[trigger] after.store.locks.contains_key(path) implies {
        &&& after.lock_counts(path)
        &&& after.lock_accounts(path)
    } by {
        assert(world.lock_counts(path) && world.lock_accounts(path));
        let flags = operations_at(world.operations, path);
        lemma_count_remove(flags, i);
        assert(operations_at(after.operations, path) =~= flags.remove(i));
        lemma_removed(world, i, path);
    }
    assert forall|j: int| 0 <= j < after.operations.len() implies #[trigger] after.operation_valid(
        j,
    ) by {
        let k = if j < i {
            j
        } else {
            j + 1
        };
        assert(world.operation_valid(k));
        assert(after.operations[j] == world.operations[k]);
        assert(after.steps[j] == world.steps[k]);
        if world.operations[k].dest == dest {
            assert(world.lock_counts(dest));
            lemma_count_set(operations_at(world.operations, dest), i, k);
        }
    }
    assert forall|j: int, k: int|
        0 <= j < k < after.operations.len() && (#[trigger] after.operations[j]).dest == (
        #[trigger] after.operations[k]).dest implies after.operations[j].stage == Stage::Idle
        || after.operations[k].stage == Stage::Idle by {
        let a = if j < i {
            j
        } else {
            j + 1
        };
        let b = if k < i {
            k
        } else {
            k + 1
        };
        assert(after.operations[j] == world.operations[a]);
        assert(after.operations[k] == world.operations[b]);
    }
    assert forall|j: int| 0 <= j < after.reads.len() implies after.store.locks.contains_key(
        (#[trigger] after.reads[j]).path,
    ) by {
        assert(world.store.locks.contains_key(world.reads[j].path));
        if world.reads[j].path == dest {
            assert(world.lock_counts(dest));
            lemma_count_set(operations_at(world.operations, dest), i, i);
            lemma_count_set(reads_at(world.reads, dest), j, j);
        }
    }
    assert forall|path: PathView| #[trigger] is_key_file(path) implies value(after.disk, path)
        == after.accounted(path) by {
        assert(value(world.disk, path) == world.accounted(path));
    }
}

/// Taking an idle operation away leaves the others on a file as they are.
proof fn lemma_removed(world: World, i: int, path: PathView)
    requires
        0 <= i < world.operations.len(),
        world.operations[i].stage == Stage::Idle,
    ensures
        (exists|j: int|
            0 <= j < world.operations.len() && (#[trigger] world.operations[j]).dest == path
                && world.operations[j].stage != Stage::Idle) <==> (exists|j: int|
            0 <= j < world.operations.remove(i).len() && (
            #[trigger] world.operations.remove(i)[j]).dest == path && world.operations.remove(
                i,
            )[j].stage != Stage::Idle),
        forall|j: int|
            0 <= j < world.operations.remove(i).len() ==> #[trigger] world.operations.remove(i)[j]
                == world.operations[if j < i {
                j
            } else {
                j + 1
            }],
{
    let rest = world.operations.remove(i);
    if exists|j: int|
        0 <= j < world.operations.len() && (#[trigger] world.operations[j]).dest == path
            && world.operations[j].stage != Stage::Idle {
        let j = choose|j: int|
            0 <= j < world.operations.len() && (#[trigger] world.operations[j]).dest == path
                && world.operations[j].stage != Stage::Idle;
        let k = if j < i {
            j
        } else {
            j - 1
        };
        assert(rest[k] == world.operations[j]);
    }
}

/// A change of readers and references keeps the operations and the past valid.
proof fn lemma_same_states(world: World, after: World)
    requires
        world.valid(),
        after.operations == world.operations,
        after.steps == world.steps,
        after.disk == world.disk,
        after.initial == world.initial,
        after.requests == world.requests,
        after.changed == world.changed,
        after.store.platform == world.store.platform,
        after.store.tmp_file_counter == world.store.tmp_file_counter,
        after.store.next_version == world.store.next_version,
        forall|i: int|
            0 <= i < world.operations.len() ==> after.store.locks.contains_key(
                (#[trigger] world.operations[i]).dest,
            ),
        forall|path: PathView| #[trigger]
            after.store.locks.contains_key(path) && world.store.locks.contains_key(path)
                ==> after.store.locks[path].state == world.store.locks[path].state,
    ensures
        after.past_valid(),
        forall|i: int| 0 <= i < after.operations.len() ==> #[trigger] after.operation_valid(i),
        forall|i: int, j: int|
            0 <= i < j < after.operations.len() && (#[trigger] after.operations[i]).dest == (
            #[trigger] after.operations[j]).dest ==> after.operations[i].stage == Stage::Idle
                || after.operations[j].stage == Stage::Idle,
        forall|path: PathView| #[trigger]
            after.store.locks.contains_key(path) && world.store.locks.contains_key(path)
                ==> after.lock_accounts(path),
{
    assert forall|i: int| 0 <= i < after.operations.len() implies #[trigger] after.operation_valid(
        i,
    ) by {
        assert(world.operation_valid(i));
        assert(after.store.locks.contains_key(world.operations[i].dest));
        assert(after.execution(i) == world.execution(i));
    }
    assert forall|path: PathView| #[trigger] is_key_file(path) implies value(after.disk, path)
        == after.accounted(path) by {
        assert(value(world.disk, path) == world.accounted(path));
    }
    assert forall|path: PathView| #[trigger]
        after.store.locks.contains_key(path) && world.store.locks.contains_key(
            path,
        ) implies after.lock_accounts(path) by {
        assert(world.lock_accounts(path));
    }
}

/// Preparing a read keeps a world valid.
proof fn lemma_prepare_read(world: World, read: PathView)
    requires
        world.valid(),
        world.allows(Happening::PrepareRead(read)),
    ensures
        world.after(Happening::PrepareRead(read)).valid(),
{
    let after = world.after(Happening::PrepareRead(read));
    lemma_key_file(read);
    assert forall|i: int| 0 <= i < world.operations.len() implies after.store.locks.contains_key(
        (#[trigger] world.operations[i]).dest,
    ) by {
        assert(world.operation_valid(i));
    }
    lemma_same_states(world, after);
    assert forall|path: PathView| #[trigger] after.store.locks.contains_key(path) implies {
        &&& after.store.lock_valid(path, after.store.locks[path])
        &&& after.lock_counts(path)
        &&& after.lock_accounts(path)
    } by {
        let flags = reads_at(world.reads, path);
        assert(reads_at(after.reads, path) =~= flags.push(path == read));
        lemma_count_push(flags, path == read);
        let reading = reading_at(world.reads, path);
        assert(reading_at(after.reads, path) =~= reading.push(false));
        lemma_count_push(reading, false);
        if world.store.locks.contains_key(path) {
            assert(world.store.lock_valid(path, world.store.locks[path]));
            assert(world.lock_counts(path));
        } else {
            lemma_none_at(world, path);
        }
    }
    assert forall|i: int| 0 <= i < after.reads.len() implies after.store.locks.contains_key(
        (#[trigger] after.reads[i]).path,
    ) by {
        if i < world.reads.len() {
            assert(world.store.locks.contains_key(world.reads[i].path));
        }
    }
}

/// Beginning to read keeps a world valid.
proof fn lemma_read(world: World, i: int)
    requires
        world.valid(),
        world.allows(Happening::Read(i)),
    ensures
        world.after(Happening::Read(i)).valid(),
{
    let after = world.after(Happening::Read(i));
    let read = world.reads[i].path;
    if !world.store.locks[read].writing {
        law_all_stay_attached(world);
        assert(world.store.attached_read(world.reads[i]));
        assert forall|j: int| 0 <= j < world.operations.len() implies after.store.locks.contains_key(
            (#[trigger] world.operations[j]).dest,
        ) by {
            assert(world.operation_valid(j));
        }
        lemma_same_states(world, after);
        assert forall|path: PathView| #[trigger] after.store.locks.contains_key(path) implies {
            &&& after.store.lock_valid(path, after.store.locks[path])
            &&& after.lock_counts(path)
            &&& after.lock_accounts(path)
        } by {
            assert(world.store.locks.contains_key(path));
            assert(world.store.lock_valid(path, world.store.locks[path]));
            assert(world.lock_counts(path));
            assert(reads_at(after.reads, path) =~= reads_at(world.reads, path));
            let reading = reading_at(world.reads, path);
            lemma_count_update(reading, i, path == read);
            assert(reading_at(after.reads, path) =~= reading.update(i, path == read));
        }
        assert forall|j: int| 0 <= j < after.reads.len() implies after.store.locks.contains_key(
            (#[trigger] after.reads[j]).path,
        ) by {
            assert(world.store.locks.contains_key(world.reads[j].path));
        }
    }
}

/// Ending a read, or giving it up before it has begun, keeps a world valid.
proof fn lemma_read_over(world: World, i: int)
    requires
        world.valid(),
        0 <= i < world.reads.len(),
    ensures
        world.reads[i].reading ==> world.after(Happening::FinishRead(i)).valid(),
        !world.reads[i].reading ==> world.after(Happening::ReleaseRead(i)).valid(),
{
    let read = world.reads[i].path;
    let reading_now = world.reads[i].reading;
    let after = if reading_now {
        world.after(Happening::FinishRead(i))
    } else {
        world.after(Happening::ReleaseRead(i))
    };
    law_all_stay_attached(world);
    assert(world.store.attached_read(world.reads[i]));
    assert(world.lock_counts(read));
    assert(world.store.lock_valid(read, world.store.locks[read]));
    let ended = if reading_now {
        world.store.done_reading(read)
    } else {
        world.store
    };
    assert(ended.valid()) by {
        assert forall|path: PathView| #[trigger] ended.locks.contains_key(
            path,
        ) implies ended.lock_valid(path, ended.locks[path]) by {
            assert(world.store.lock_valid(path, world.store.locks[path]));
        }
    }
    lemma_released(ended, read);
    lemma_count_set(reads_at(world.reads, read), i, i);
    assert forall|j: int| 0 <= j < world.operations.len() implies after.store.locks.contains_key(
        (#[trigger] world.operations[j]).dest,
    ) by {
        assert(world.operation_valid(j));
        if world.operations[j].dest == read {
            lemma_count_set(operations_at(world.operations, read), j, j);
        }
    }
    assert forall|path: PathView| #[trigger]
        after.store.locks.contains_key(path) && world.store.locks.contains_key(
            path,
        ) implies after.store.locks[path].state == world.store.locks[path].state by {}
    lemma_same_states(world, after);
    assert forall|path: PathView| #[trigger] after.store.locks.contains_key(path) implies {
        &&& after.lock_counts(path)
        &&& after.lock_accounts(path)
    } by {
        assert(world.store.locks.contains_key(path));
        assert(world.lock_counts(path));
        let flags = reads_at(world.reads, path);
        lemma_count_remove(flags, i);
        assert(reads_at(after.reads, path) =~= flags.remove(i));
        let reading = reading_at(world.reads, path);
        lemma_count_remove(reading, i);
        assert(reading_at(after.reads, path) =~= reading.remove(i));
    }
    assert forall|j: int| 0 <= j < after.reads.len() implies after.store.locks.contains_key(
        (#[trigger] after.reads[j]).path,
    ) by {
        let k = if j < i {
            j
        } else {
            j + 1
        };
        assert(after.reads[j] == world.reads[k]);
        assert(world.store.locks.contains_key(world.reads[k].path));
        if world.reads[k].path == read {
            lemma_count_set(reads_at(world.reads, read), i, k);
        }
    }
}

/// Deleting a trash file keeps a world valid.
proof fn lemma_discard(world: World, dir: PathView, name: Seq<u8>)
    requires
        world.valid(),
        world.allows(Happening::Discard(dir, name)),
    ensures
        world.after(Happening::Discard(dir, name)).valid(),
{
    let after = world.after(Happening::Discard(dir, name));
    let trash = dir.push(name);
    assert(trash.last() == name);
    assert forall|path: PathView| #[trigger] is_key_file(path) implies value(after.disk, path)
        == after.accounted(path) by {
        assert(value(world.disk, path) == world.accounted(path));
        law_artifacts_are_told_from_keys(path, 0, Artifact::Trash);
        assert(path != trash);
    }
    assert forall|path: PathView| #[trigger] after.store.locks.contains_key(
        path,
    ) implies after.lock_counts(path) && after.lock_accounts(path) by {
        assert(world.lock_counts(path) && world.lock_accounts(path));
    }
    assert forall|i: int| 0 <= i < after.operations.len() implies #[trigger] after.operation_valid(
        i,
    ) by {
        assert(world.operation_valid(i));
        let operation = world.operations[i];
        if operation.stage != Stage::Idle {
            assert(world.lock_counts(operation.dest));
            assert(world.store.locks[operation.dest].writing);
            assert(any_writing(world.store.locks));
        }
    }
}

/// Whatever happens keeps a world valid: the counts of readers, writers and references stay right,
/// every operation finds the disk as it expects it, and the files hold what the account of the
/// changes says.
pub proof fn law_world_stays_valid(world: World, happening: Happening)
    requires
        world.valid(),
        world.allows(happening),
    ensures
        world.after(happening).valid(),
{
    match happening {
        Happening::Prepare(dest, mutation) => lemma_prepare(world, dest, mutation),
        Happening::Execute(i) => lemma_execute(world, i),
        Happening::Resume(i, outcome, disk, dirs) => lemma_resume(world, i, outcome, disk, dirs),
        Happening::Release(i) => lemma_release(world, i),
        Happening::PrepareRead(path) => lemma_prepare_read(world, path),
        Happening::Read(i) => lemma_read(world, i),
        Happening::FinishRead(i) => lemma_read_over(world, i),
        Happening::ReleaseRead(i) => lemma_read_over(world, i),
        Happening::Discard(dir, name) => lemma_discard(world, dir, name),
    }
}

/// The steps of a world are those that the store takes.
pub proof fn law_world_follows_the_store(world: World, happening: Happening, i: int)
    requires
        world.valid(),
        world.allows(happening),
        happening == Happening::Execute(i) || (happening is Resume && happening->Resume_0 == i),
    ensures
        ({
            let after = world.after(happening);
            let (store, operation, step) = if happening is Resume {
                world.store.resume(world.operations[i], happening->Resume_1)
            } else {
                world.store.execute(world.operations[i])
            };
            &&& after.store == store
            &&& after.operations == world.operations.update(i, operation)
            &&& after.steps == world.steps.update(i, Some(step))
        }),
{
    assert(world.operations.update(i, world.operations[i]) =~= world.operations);
}

/// An operation gets a higher version than every operation that was prepared before, on whatever
/// file and whether or not it was released.
pub proof fn law_prepared_version_is_the_highest(
    world: World,
    dest: PathView,
    mutation: MutationView,
    version: u64,
)
    requires
        world.valid(),
        world.allows(Happening::Prepare(dest, mutation)),
        world.requests.contains_key(version),
    ensures
        world.after(Happening::Prepare(dest, mutation)).operations.last().version > version,
{
}

} // verus!
