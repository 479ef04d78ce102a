//! Paths, and the names of files.

use crate::text::{copy_bytes, decimal, push_bytes, push_decimal, same_bytes};
use vstd::prelude::*;
use vstd::utf8::encode_utf8;

verus! {

/// A path as the sequence of its components' bytes.
pub type PathView = Seq<Seq<u8>>;

/// A path, by its components. Where it is not said otherwise it is a path below the data
/// directory, and without components it is the data directory itself.
#[derive(Debug)]
pub struct StorePath {
    components: Vec<Vec<u8>>,
}

impl View for StorePath {
    type V = PathView;

    closed spec fn view(&self) -> PathView {
        Seq::new(self.components@.len(), |i: int| self.components@[i]@)
    }
}

/// What a text adds to a path: one component, or none if it is empty.
pub open spec fn component(text: Seq<char>) -> PathView {
    if text.len() == 0 {
        seq![]
    } else {
        seq![encode_utf8(text)]
    }
}

/// The directory of a namespace.
pub open spec fn dest_dir_path(
    primary_namespace: Seq<char>,
    secondary_namespace: Seq<char>,
) -> PathView {
    component(primary_namespace) + component(secondary_namespace)
}

/// The file of a key, or the directory of a namespace where no key is given.
pub open spec fn dest_path(
    primary_namespace: Seq<char>,
    secondary_namespace: Seq<char>,
    key: Option<Seq<char>>,
) -> PathView {
    dest_dir_path(primary_namespace, secondary_namespace) + match key {
        Some(key) => component(key),
        None => seq![],
    }
}

/// The position of the last dot of a file name, or -1 if it holds none.
pub open spec fn last_dot(name: Seq<u8>) -> int
    decreases name.len(),
{
    if name.len() == 0 {
        -1
    } else if name.last() == 46u8 {
        name.len() - 1
    } else {
        last_dot(name.drop_last())
    }
}

/// The position of the dot before a file name's extension, or -1 if it has no extension: a
/// leading dot does not start one, and neither does the second dot of `..`.
pub open spec fn extension_dot(name: Seq<u8>) -> int {
    if name == seq![46u8, 46u8] || last_dot(name) == 0 {
        -1
    } else {
        last_dot(name)
    }
}

/// A file name without its extension.
pub open spec fn file_stem(name: Seq<u8>) -> Seq<u8> {
    if extension_dot(name) < 0 {
        name
    } else {
        name.take(extension_dot(name))
    }
}

/// A file name's extension.
pub open spec fn extension(name: Seq<u8>) -> Option<Seq<u8>> {
    if extension_dot(name) < 0 {
        None
    } else {
        Some(name.skip(extension_dot(name) + 1))
    }
}

/// The two kinds of files that the store leaves beside the keys' files.
#[derive(Clone, Copy, Debug, PartialEq, Eq, Structural)]
pub enum Artifact {
    /// A value on its way to its key's file.
    Temporary,
    /// A removed value on its way out.
    Trash,
}

/// The extension that marks an artifact.
pub open spec fn artifact_extension(artifact: Artifact) -> Seq<u8> {
    match artifact {
        Artifact::Temporary => seq![116u8, 109u8, 112u8],
        Artifact::Trash => seq![116u8, 114u8, 97u8, 115u8, 104u8],
    }
}

/// The kind of artifact that a file name stands for.
pub open spec fn artifact_of(name: Seq<u8>) -> Option<Artifact> {
    if extension(name) == Some(artifact_extension(Artifact::Temporary)) {
        Some(Artifact::Temporary)
    } else if extension(name) == Some(artifact_extension(Artifact::Trash)) {
        Some(Artifact::Trash)
    } else {
        None
    }
}

/// The name of the artifact that carries `number`, for a file called `name`: the extension is
/// replaced by the number and the artifact's own extension.
pub open spec fn artifact_name(name: Seq<u8>, number: nat, artifact: Artifact) -> Seq<u8> {
    file_stem(name) + seq![46u8] + decimal(number) + seq![46u8] + artifact_extension(artifact)
}

/// The artifact that carries `number`, beside the file at `path`.
pub open spec fn artifact_path(path: PathView, number: nat, artifact: Artifact) -> PathView {
    path.drop_last().push(artifact_name(path.last(), number, artifact))
}

/// Finds the last dot of `name`, counted from one, or zero if there is none.
fn find_last_dot(name: &[u8]) -> (after: usize)
    ensures
        after == last_dot(name@) + 1,
        after <= name@.len(),
{
    let mut n: usize = name.len();
    assert(name@.take(n as int) =~= name@);
    while n > 0 && name[n - 1] != 46
        invariant
            n <= name@.len(),
            last_dot(name@) == last_dot(name@.take(n as int)),
        decreases n,
    {
        assert(name@.take(n as int).drop_last() =~= name@.take(n - 1));
        n -= 1;
    }
    n
}

/// Finds the dot before the extension of `name`, counted from one, or zero if it has none.
fn find_extension_dot(name: &[u8]) -> (after: usize)
    ensures
        after == extension_dot(name@) + 1,
        after <= name@.len(),
{
    let after: usize = find_last_dot(name);
    let dots: [u8; 2] = [46, 46];
    assert(dots@ =~= seq![46u8, 46u8]);
    if after == 1 || same_bytes(name, &dots) {
        0
    } else {
        after
    }
}

/// The bytes of an artifact's extension.
fn extension_bytes(artifact: Artifact) -> (bytes: Vec<u8>)
    ensures
        bytes@ == artifact_extension(artifact),
{
    let bytes: Vec<u8> = match artifact {
        Artifact::Temporary => vec![116, 109, 112],
        Artifact::Trash => vec![116, 114, 97, 115, 104],
    };
    assert(bytes@ =~= artifact_extension(artifact));
    bytes
}

/// Whether the extension of `name` is that of `artifact`.
fn has_artifact_extension(name: &[u8], artifact: Artifact) -> (found: bool)
    ensures
        found == (extension(name@) == Some(artifact_extension(artifact))),
{
    let after: usize = find_extension_dot(name);
    if after == 0 {
        return false;
    }
    let (_, tail) = name.split_at(after);
    assert(tail@ =~= name@.skip(after as int));
    same_bytes(tail, extension_bytes(artifact).as_slice())
}

/// The kind of artifact that `name` stands for.
pub fn classify_name(name: &[u8]) -> (artifact: Option<Artifact>)
    ensures
        artifact == artifact_of(name@),
{
    if has_artifact_extension(name, Artifact::Temporary) {
        Some(Artifact::Temporary)
    } else if has_artifact_extension(name, Artifact::Trash) {
        Some(Artifact::Trash)
    } else {
        None
    }
}

impl StorePath {
    /// The data directory itself.
    pub fn root() -> (path: StorePath)
        ensures
            path@ == Seq::<Seq<u8>>::empty(),
    {
        let path = StorePath { components: Vec::new() };
        assert(path@ =~= Seq::<Seq<u8>>::empty());
        path
    }

    /// The number of components.
    pub fn len(&self) -> (len: usize)
        ensures
            len == self@.len(),
    {
        self.components.len()
    }

    /// The component at `i`.
    pub fn component(&self, i: usize) -> (bytes: &Vec<u8>)
        requires
            i < self@.len(),
        ensures
            bytes@ == self@[i as int],
    {
        &self.components[i]
    }

    /// Appends one component.
    pub fn push_bytes(&mut self, bytes: Vec<u8>)
        ensures
            final(self)@ == old(self)@.push(bytes@),
    {
        self.components.push(bytes);
        assert(self@ =~= old(self)@.push(bytes@));
    }

    /// Appends a text, which adds a component unless it is empty.
    pub(crate) fn push_text(&mut self, text: &str)
        ensures
            final(self)@ == old(self)@ + component(text@),
    {
        if !text.is_empty() {
            self.push_bytes(copy_bytes(text.as_bytes()));
        }
        assert(self@ =~= old(self)@ + component(text@));
    }

    /// What is left of the path when `base` is taken off its front, if `base` is the front of it,
    /// component by component.
    pub fn strip_base(&self, base: &StorePath) -> (rest: Option<StorePath>)
        ensures
            rest is Some <==> base@.is_prefix_of(self@),
            rest matches Some(rest) ==> self@ == base@ + rest@,
    {
        let n: usize = base.components.len();
        if n > self.components.len() {
            assert(base@.len() > self@.len());
            return None;
        }
        if !self.prefix(n).same_as(base) {
            assert(!base@.is_prefix_of(self@)) by {
                if base@.is_prefix_of(self@) {
                    assert(self@.take(n as int) =~= base@);
                }
            }
            return None;
        }
        let mut rest = StorePath::root();
        let mut i: usize = n;
        while i < self.components.len()
            invariant
                n <= i <= self.components@.len(),
                self@.len() == self.components@.len(),
                rest@ == self@.subrange(n as int, i as int),
            decreases self.components@.len() - i,
        {
            rest.push_bytes(copy_bytes(self.components[i].as_slice()));
            i += 1;
            assert(self@.subrange(n as int, i as int) =~= self@.subrange(n as int, i - 1).push(
                self@[i - 1],
            ));
        }
        assert(self@ =~= base@ + rest@);
        assert(base@.is_prefix_of(self@));
        Some(rest)
    }

    /// A copy of the first `n` components.
    fn prefix(&self, n: usize) -> (copy: StorePath)
        requires
            n <= self@.len(),
        ensures
            copy@ == self@.take(n as int),
    {
        let mut copy = StorePath::root();
        let mut i: usize = 0;
        while i < n
            invariant
                i <= n <= self@.len(),
                self@.len() == self.components@.len(),
                copy@ == self@.take(i as int),
            decreases n - i,
        {
            copy.push_bytes(copy_bytes(self.components[i].as_slice()));
            i += 1;
            assert(self@.take(i as int) =~= self@.take(i - 1).push(self@[i - 1]));
        }
        copy
    }

    /// A copy of the path.
    pub fn duplicate(&self) -> (copy: StorePath)
        ensures
            copy@ == self@,
    {
        assert(self@.take(self@.len() as int) =~= self@);
        self.prefix(self.components.len())
    }

    /// Whether two paths have the same components.
    pub fn same_as(&self, other: &StorePath) -> (same: bool)
        ensures
            same == (self@ == other@),
    {
        if self.components.len() != other.components.len() {
            assert(self@.len() != other@.len());
            return false;
        }
        let mut i: usize = 0;
        while i < self.components.len()
            invariant
                i <= self.components@.len(),
                self.components@.len() == other.components@.len(),
                forall|j: int| 0 <= j < i ==> #[trigger] self@[j] == other@[j],
            decreases self.components@.len() - i,
        {
            if !same_bytes(self.components[i].as_slice(), other.components[i].as_slice()) {
                assert(self@[i as int] != other@[i as int]);
                return false;
            }
            i += 1;
        }
        assert(self@ =~= other@);
        true
    }

    /// The directory that holds this file.
    pub fn parent(&self) -> (parent: StorePath)
        requires
            self@.len() > 0,
        ensures
            parent@ == self@.drop_last(),
    {
        let parent = self.prefix(self.components.len() - 1);
        assert(parent@ =~= self@.drop_last());
        parent
    }

    /// The artifact that carries `number`, beside this file.
    pub(crate) fn artifact(&self, number: usize, artifact: Artifact) -> (path: StorePath)
        requires
            self@.len() > 0,
        ensures
            path@ == artifact_path(self@, number as nat, artifact),
    {
        let last: &Vec<u8> = &self.components[self.components.len() - 1];
        let after: usize = find_extension_dot(last.as_slice());
        let (stem, _) = last.as_slice().split_at(if after == 0 { last.len() } else { after - 1 });
        assert(stem@ =~= file_stem(last@));
        let mut name: Vec<u8> = copy_bytes(stem);
        name.push(46);
        push_decimal(&mut name, number);
        name.push(46);
        push_bytes(&mut name, extension_bytes(artifact).as_slice());
        assert(name@ =~= artifact_name(last@, number as nat, artifact));
        let mut path = self.parent();
        path.push_bytes(name);
        path
    }
}

/// Builds the directory path of a namespace.
pub fn get_dest_dir_path(primary_namespace: &str, secondary_namespace: &str) -> (path: StorePath)
    ensures
        path@ == dest_dir_path(primary_namespace@, secondary_namespace@),
{
    let mut path = StorePath::root();
    path.push_text(primary_namespace);
    path.push_text(secondary_namespace);
    assert(path@ =~= dest_dir_path(primary_namespace@, secondary_namespace@));
    path
}

} // verus!
