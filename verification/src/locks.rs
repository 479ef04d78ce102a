//! The table of the files that operations refer to.

use crate::path::{Artifact, PathView, StorePath};
use crate::path::artifact_path;
use crate::state::{FilesystemStoreOperationState, PendingDurability};
use vstd::prelude::*;

verus! {

/// What the table holds for one file.
#[derive(Clone, Copy, Debug)]
pub struct Lock {
    /// How many operations refer to the file.
    pub refs: usize,
    /// How many of them read it at the moment.
    pub readers: usize,
    /// Whether one of them changes it at the moment.
    pub writing: bool,
    /// What is remembered of the operations.
    pub state: FilesystemStoreOperationState,
}

impl Lock {
    /// The lock of a file that one operation begins to refer to.
    pub open spec fn fresh() -> Lock {
        Lock {
            refs: 1,
            readers: 0,
            writing: false,
            state: FilesystemStoreOperationState::empty(),
        }
    }

    /// Whether nobody may begin to change the file.
    pub open spec fn busy(self) -> bool {
        self.writing || self.readers > 0
    }

    /// How many operations use the file at the moment.
    pub open spec fn users(self) -> nat {
        if self.writing {
            self.readers as nat + 1
        } else {
            self.readers as nat
        }
    }

    /// Whether the table may forget the file once one more reference is gone.
    pub open spec fn dispensable(self) -> bool {
        self.refs == 1 && self.state.pending_durability is None
    }

    /// What holds of every lock: a file is changed by one operation at a time, and not while it is
    /// read; only operations that refer to the file use it; and the table holds nothing that is
    /// no longer needed.
    pub open spec fn valid(self) -> bool {
        &&& self.state.valid()
        &&& self.writing ==> self.readers == 0
        &&& self.users() <= self.refs
        &&& self.refs > 0 || self.state.pending_durability is Some
    }
}

/// Whether `path` is the trash file of a removal of the file at `dest` that is not durable yet.
pub open spec fn is_trash_of(dest: PathView, lock: Lock, path: PathView) -> bool {
    lock.state.pending_durability matches Some(
        PendingDurability::File { trash: Some(number), .. },
    ) && artifact_path(dest, number as nat, Artifact::Trash) == path
}

/// Whether `path` is the trash file of any removal that is not durable yet.
pub open spec fn pending_trash(locks: Map<PathView, Lock>, path: PathView) -> bool {
    exists|dest: PathView| #[trigger]
        locks.contains_key(dest) && is_trash_of(dest, locks[dest], path)
}

/// Whether any file is being changed.
pub open spec fn any_writing(locks: Map<PathView, Lock>) -> bool {
    exists|dest: PathView| #[trigger] locks.contains_key(dest) && locks[dest].writing
}

struct LockEntry {
    path: StorePath,
    lock: Lock,
}

/// The files that operations refer to or that hold a change that is not durable yet.
pub struct LockTable {
    entries: Vec<LockEntry>,
}

/// The table that a list of files and locks spells out.
pub open spec fn table_of(pairs: Seq<(PathView, Lock)>) -> Map<PathView, Lock>
    decreases pairs.len(),
{
    if pairs.len() == 0 {
        Map::empty()
    } else {
        table_of(pairs.drop_last()).insert(pairs.last().0, pairs.last().1)
    }
}

/// Whether no file is listed twice.
pub open spec fn distinct(pairs: Seq<(PathView, Lock)>) -> bool {
    forall|i: int, j: int|
        0 <= i < j < pairs.len() ==> #[trigger] pairs[i].0 != #[trigger] pairs[j].0
}

/// What the table of a list without repetitions holds.
proof fn lemma_table_of(pairs: Seq<(PathView, Lock)>)
    requires
        distinct(pairs),
    ensures
        table_of(pairs).dom().finite(),
        table_of(pairs).dom().len() == pairs.len(),
        forall|i: int|
            0 <= i < pairs.len() ==> table_of(pairs).contains_key(#[trigger] pairs[i].0)
                && table_of(pairs)[pairs[i].0] == pairs[i].1,
        forall|p: PathView| #[trigger]
            table_of(pairs).contains_key(p) ==> exists|i: int|
                0 <= i < pairs.len() && #[trigger] pairs[i].0 == p,
    decreases pairs.len(),
{
    if pairs.len() > 0 {
        let front = pairs.drop_last();
        assert forall|i: int, j: int| 0 <= i < j < front.len() implies #[trigger] front[i].0
            != #[trigger] front[j].0 by {
            assert(pairs[i].0 != pairs[j].0);
        }
        lemma_table_of(front);
        assert(!table_of(front).contains_key(pairs.last().0)) by {
            if table_of(front).contains_key(pairs.last().0) {
                let i = choose|i: int|
                    0 <= i < front.len() && #[trigger] front[i].0 == pairs.last().0;
                assert(pairs[i].0 == pairs[pairs.len() - 1].0);
            }
        }
        assert forall|i: int| 0 <= i < pairs.len() implies table_of(pairs).contains_key(
            #[trigger] pairs[i].0,
        ) && table_of(pairs)[pairs[i].0] == pairs[i].1 by {
            if i < front.len() {
                assert(front[i] == pairs[i]);
                assert(pairs[i].0 != pairs[pairs.len() - 1].0);
            }
        }
        assert forall|p: PathView| #[trigger] table_of(pairs).contains_key(p) implies exists|i: int|
            0 <= i < pairs.len() && #[trigger] pairs[i].0 == p by {
            if p == pairs.last().0 {
                assert(pairs[pairs.len() - 1].0 == p);
            } else {
                let i = choose|i: int| 0 <= i < front.len() && #[trigger] front[i].0 == p;
                assert(pairs[i].0 == p);
            }
        }
    }
}

impl View for LockTable {
    type V = Map<PathView, Lock>;

    closed spec fn view(&self) -> Map<PathView, Lock> {
        table_of(self.pairs())
    }
}

impl LockTable {
    closed spec fn pairs(self) -> Seq<(PathView, Lock)> {
        Seq::new(
            self.entries@.len(),
            |i: int| (self.entries@[i].path@, self.entries@[i].lock),
        )
    }

    /// Whether no file occurs twice.
    pub closed spec fn well_formed(self) -> bool {
        distinct(self.pairs())
    }

    /// The table without files.
    pub(crate) fn new() -> (table: LockTable)
        ensures
            table.well_formed(),
            table@ == Map::<PathView, Lock>::empty(),
    {
        let table = LockTable { entries: Vec::new() };
        assert(table.pairs() =~= Seq::empty());
        table
    }

    /// The number of files.
    pub(crate) fn len(&self) -> (len: usize)
        requires
            self.well_formed(),
        ensures
            self@.dom().finite(),
            len == self@.dom().len(),
    {
        proof {
            lemma_table_of(self.pairs());
        }
        self.entries.len()
    }

    fn find(&self, path: &StorePath) -> (found: Option<usize>)
        requires
            self.well_formed(),
        ensures
            match found {
                Some(i) => {
                    &&& i < self.entries@.len()
                    &&& self.entries@[i as int].path@ == path@
                    &&& self@.contains_key(path@)
                    &&& self@[path@] == self.entries@[i as int].lock
                },
                None => !self@.contains_key(path@),
            },
    {
        proof {
            lemma_table_of(self.pairs());
        }
        let mut i: usize = 0;
        while i < self.entries.len()
            invariant
                i <= self.entries@.len(),
                self.well_formed(),
                forall|j: int| 0 <= j < i ==> (#[trigger] self.entries@[j]).path@ != path@,
            decreases self.entries@.len() - i,
        {
            if self.entries[i].path.same_as(path) {
                proof {
                    lemma_table_of(self.pairs());
                    assert(self.pairs()[i as int].0 == path@);
                }
                return Some(i);
            }
            i += 1;
        }
        assert forall|j: int| 0 <= j < self.pairs().len() implies #[trigger] self.pairs()[j].0
            != path@ by {
            assert(self.entries@[j].path@ != path@);
        }
        None
    }

    /// The lock of the file at `path`.
    pub(crate) fn get(&self, path: &StorePath) -> (lock: Option<Lock>)
        requires
            self.well_formed(),
        ensures
            match lock {
                Some(lock) => self@.contains_key(path@) && self@[path@] == lock,
                None => !self@.contains_key(path@),
            },
    {
        match self.find(path) {
            Some(i) => Some(self.entries[i].lock),
            None => None,
        }
    }

    /// Replaces the lock of a file that the table holds.
    pub(crate) fn set(&mut self, path: &StorePath, lock: Lock)
        requires
            old(self).well_formed(),
            old(self)@.contains_key(path@),
        ensures
            final(self).well_formed(),
            final(self)@ == old(self)@.insert(path@, lock),
    {
        if let Some(i) = self.find(path) {
            self.entries[i].lock = lock;
            proof {
                let before = old(self).pairs();
                let after = self.pairs();
                assert(after =~= before.update(i as int, (path@, lock)));
                assert forall|j: int, k: int| 0 <= j < k < after.len() implies #[trigger] after[j].0
                    != #[trigger] after[k].0 by {
                    assert(before[j].0 != before[k].0);
                }
                lemma_table_of(before);
                lemma_table_of(after);
                assert forall|p: PathView| #[trigger]
                    self@.contains_key(p) implies old(self)@.contains_key(p) && self@[p] == old(
                    self,
                )@.insert(path@, lock)[p] by {
                    let j = choose|j: int| 0 <= j < after.len() && #[trigger] after[j].0 == p;
                    assert(before[j].0 == p);
                    if j != i {
                        assert(before[j].0 != before[i as int].0);
                    }
                }
                assert forall|p: PathView| #[trigger] old(self)@.contains_key(p) implies self@.contains_key(p) by {
                    let j = choose|j: int| 0 <= j < before.len() && #[trigger] before[j].0 == p;
                    assert(after[j].0 == p);
                }
                assert(self@ =~= old(self)@.insert(path@, lock));
            }
        }
    }

    /// Adds a file that the table does not hold.
    fn add_file(&mut self, path: &StorePath, lock: Lock)
        requires
            old(self).well_formed(),
            !old(self)@.contains_key(path@),
        ensures
            final(self).well_formed(),
            final(self)@ == old(self)@.insert(path@, lock),
    {
        proof {
            lemma_table_of(self.pairs());
        }
        self.entries.push(LockEntry { path: path.duplicate(), lock });
        proof {
            let before = old(self).pairs();
            let after = self.pairs();
            assert(after =~= before.push((path@, lock)));
            assert forall|j: int, k: int| 0 <= j < k < after.len() implies #[trigger] after[j].0
                != #[trigger] after[k].0 by {
                assert(before[j].0 == after[j].0);
                if k < before.len() {
                    assert(before[j].0 != before[k].0);
                }
            }
            assert(after.drop_last() =~= before);
        }
    }

    /// Drops a file that the table holds.
    fn drop_file(&mut self, path: &StorePath)
        requires
            old(self).well_formed(),
            old(self)@.contains_key(path@),
        ensures
            final(self).well_formed(),
            final(self)@ == old(self)@.remove(path@),
    {
        if let Some(i) = self.find(path) {
            self.entries.remove(i);
            proof {
                let before = old(self).pairs();
                let after = self.pairs();
                assert(after =~= before.remove(i as int));
                assert forall|j: int, k: int| 0 <= j < k < after.len() implies #[trigger] after[j].0
                    != #[trigger] after[k].0 by {
                    let j0 = if j < i { j } else { j + 1 };
                    let k0 = if k < i { k } else { k + 1 };
                    assert(before[j0].0 != before[k0].0);
                }
                lemma_table_of(before);
                lemma_table_of(after);
                assert forall|p: PathView| #[trigger]
                    self@.contains_key(p) implies p != path@ && old(self)@.contains_key(p)
                    && self@[p] == old(self)@[p] by {
                    let j = choose|j: int| 0 <= j < after.len() && #[trigger] after[j].0 == p;
                    let j0 = if j < i { j } else { j + 1 };
                    assert(before[j0].0 == p);
                    assert(before[i as int].0 == path@);
                    assert(j0 < i ==> before[j0].0 != before[i as int].0);
                    assert(i < j0 ==> before[i as int].0 != before[j0].0);
                }
                assert forall|p: PathView| #[trigger] old(self)@.contains_key(p) && p
                    != path@ implies self@.contains_key(p) by {
                    let j = choose|j: int| 0 <= j < before.len() && #[trigger] before[j].0 == p;
                    let j1 = if j < i { j } else { j - 1 };
                    assert(after[j1].0 == p);
                }
                assert(self@ =~= old(self)@.remove(path@));
            }
        }
    }

    /// Begins to refer to the file at `path`, which enters the table if it is not there yet.
    pub(crate) fn get_inner_lock_ref(&mut self, path: &StorePath)
        requires
            old(self).well_formed(),
            old(self)@.contains_key(path@) ==> old(self)@[path@].refs < usize::MAX,
        ensures
            final(self).well_formed(),
            final(self)@ == old(self)@.insert(
                path@,
                if old(self)@.contains_key(path@) {
                    Lock { refs: (old(self)@[path@].refs + 1) as usize, ..old(self)@[path@] }
                } else {
                    Lock::fresh()
                },
            ),
    {
        match self.get(path) {
            Some(lock) => {
                self.set(path, Lock { refs: lock.refs + 1, ..lock });
            },
            None => {
                self.add_file(
                    path,
                    Lock {
                        refs: 1,
                        readers: 0,
                        writing: false,
                        state: FilesystemStoreOperationState::new(),
                    },
                );
            },
        }
    }

    /// Gives up one reference to the file at `path`. The file leaves the table with the last
    /// reference, unless a change to it is not durable yet.
    pub(crate) fn clean_lock(&mut self, path: &StorePath)
        requires
            old(self).well_formed(),
            old(self)@.contains_key(path@),
            old(self)@[path@].refs > 0,
        ensures
            final(self).well_formed(),
            final(self)@ == if old(self)@[path@].dispensable() {
                old(self)@.remove(path@)
            } else {
                old(self)@.insert(
                    path@,
                    Lock { refs: (old(self)@[path@].refs - 1) as usize, ..old(self)@[path@] },
                )
            },
    {
        if let Some(lock) = self.get(path) {
            if lock.refs == 1 && !lock.state.has_pending_durability_work() {
                self.drop_file(path);
            } else {
                self.set(path, Lock { refs: lock.refs - 1, ..lock });
            }
        }
    }

    /// Whether the file at `path` is the trash of a removal that is not durable yet.
    pub(crate) fn holds_trash(&self, path: &StorePath) -> (found: bool)
        requires
            self.well_formed(),
            forall|p: PathView| #[trigger] self@.contains_key(p) ==> p.len() > 0,
        ensures
            found == pending_trash(self@, path@),
    {
        let mut i: usize = 0;
        while i < self.entries.len()
            invariant
                i <= self.entries@.len(),
                self.well_formed(),
                forall|p: PathView| #[trigger] self@.contains_key(p) ==> p.len() > 0,
                forall|j: int|
                    0 <= j < i ==> !is_trash_of(
                        (#[trigger] self.entries@[j]).path@,
                        self.entries@[j].lock,
                        path@,
                    ),
            decreases self.entries@.len() - i,
        {
            proof {
                lemma_table_of(self.pairs());
                assert(self@.contains_key(self.pairs()[i as int].0));
            }
            let entry = &self.entries[i];
            if let Some(PendingDurability::File { trash: Some(number), .. }) =
                entry.lock.state.pending_durability {
                if entry.path.artifact(number, Artifact::Trash).same_as(path) {
                    assert(is_trash_of(
                        self.pairs()[i as int].0,
                        self@[self.pairs()[i as int].0],
                        path@,
                    ));
                    return true;
                }
            }
            i += 1;
        }
        proof {
            lemma_table_of(self.pairs());
            if pending_trash(self@, path@) {
                let p = choose|p: PathView| #[trigger]
                    self@.contains_key(p) && is_trash_of(p, self@[p], path@);
                let j = choose|j: int| 0 <= j < self.pairs().len() && #[trigger] self.pairs()[j].0 == p;
                assert(!is_trash_of(self.entries@[j].path@, self.entries@[j].lock, path@));
            }
        }
        false
    }

    /// Whether any file is being changed.
    pub(crate) fn any_writing(&self) -> (found: bool)
        requires
            self.well_formed(),
        ensures
            found == any_writing(self@),
    {
        let mut i: usize = 0;
        while i < self.entries.len()
            invariant
                i <= self.entries@.len(),
                self.well_formed(),
                forall|j: int| 0 <= j < i ==> !(#[trigger] self.entries@[j]).lock.writing,
            decreases self.entries@.len() - i,
        {
            if self.entries[i].lock.writing {
                proof {
                    lemma_table_of(self.pairs());
                    assert(self@[self.pairs()[i as int].0].writing);
                }
                return true;
            }
            i += 1;
        }
        proof {
            lemma_table_of(self.pairs());
            if any_writing(self@) {
                let p = choose|p: PathView| #[trigger] self@.contains_key(p) && self@[p].writing;
                let j = choose|j: int| 0 <= j < self.pairs().len() && #[trigger] self.pairs()[j].0 == p;
                assert(!self.entries@[j].lock.writing);
            }
        }
        false
    }
}

} // verus!
