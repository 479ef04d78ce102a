//! Laws on the names of files.

use crate::namespace::{is_key_char, namespace_fault, valid_kvstore_str};
use crate::namespace::lemma_valid_is_ascii;
use crate::path::{Artifact, PathView};
use crate::path::{
    artifact_extension, artifact_name, artifact_of, artifact_path, dest_path, extension,
    extension_dot, file_stem, last_dot,
};
use crate::text::{decimal, lemma_decimal_injective};
use vstd::prelude::*;
use vstd::utf8::{encode_utf8, encode_utf8_decode_utf8};

verus! {

/// Whether a file name holds no dot.
pub open spec fn dotless(name: Seq<u8>) -> bool {
    forall|i: int| 0 <= i < name.len() ==> #[trigger] name[i] != 46u8
}

/// Whether a path is that of a key's file.
pub open spec fn is_key_file(path: PathView) -> bool {
    exists|primary_namespace: Seq<char>, secondary_namespace: Seq<char>, key: Seq<char>|
        namespace_fault(primary_namespace, secondary_namespace, Some(key)) is None && path
            == #[trigger] dest_path(primary_namespace, secondary_namespace, Some(key))
}

/// A valid key makes a file name of at least one character and without dots.
pub proof fn lemma_key_name(key: Seq<char>)
    requires
        valid_kvstore_str(key),
    ensures
        dotless(encode_utf8(key)),
        encode_utf8(key).len() == key.len(),
{
    lemma_valid_is_ascii(key);
    assert forall|i: int| 0 <= i < key.len() implies #[trigger] encode_utf8(key)[i] != 46u8 by {
        assert(is_key_char(key[i]));
        assert(encode_utf8(key)[i] == key[i] as u8);
    }
}

/// The last component of a key's path is the key's file name.
pub proof fn lemma_key_file(path: PathView)
    requires
        is_key_file(path),
    ensures
        0 < path.len() <= 3,
        path.last().len() > 0,
        dotless(path.last()),
{
    let (p, s, k) = choose|p: Seq<char>, s: Seq<char>, k: Seq<char>|
        namespace_fault(p, s, Some(k)) is None && path == #[trigger] dest_path(p, s, Some(k));
    lemma_key_name(k);
    assert(path.last() == encode_utf8(k));
}

/// A name without dots has no extension.
pub proof fn lemma_dotless(name: Seq<u8>)
    requires
        dotless(name),
    ensures
        last_dot(name) == -1,
    decreases name.len(),
{
    if name.len() > 0 {
        assert(name.last() == name[name.len() - 1]);
        lemma_dotless(name.drop_last());
    }
}

/// The last dot of a name is the one that only characters other than dots follow.
proof fn lemma_last_dot(front: Seq<u8>, back: Seq<u8>)
    requires
        dotless(back),
    ensures
        last_dot(front + seq![46u8] + back) == front.len(),
    decreases back.len(),
{
    let name = front + seq![46u8] + back;
    if back.len() == 0 {
        assert(name.last() == 46u8);
    } else {
        assert(name.last() == back.last());
        assert(back.last() == back[back.len() - 1]);
        assert(name.drop_last() =~= front + seq![46u8] + back.drop_last());
        lemma_last_dot(front, back.drop_last());
    }
}

/// The name of an artifact of a file whose name holds no dot.
proof fn lemma_artifact_name(name: Seq<u8>, number: nat, artifact: Artifact)
    requires
        dotless(name),
        name.len() > 0,
    ensures
        artifact_name(name, number, artifact) == name + seq![46u8] + decimal(number) + seq![46u8]
            + artifact_extension(artifact),
        extension(artifact_name(name, number, artifact)) == Some(artifact_extension(artifact)),
        artifact_of(artifact_name(name, number, artifact)) == Some(artifact),
        !dotless(artifact_name(name, number, artifact)),
{
    lemma_dotless(name);
    let front = name + seq![46u8] + decimal(number);
    let back = artifact_extension(artifact);
    let full = artifact_name(name, number, artifact);
    assert(file_stem(name) == name);
    assert(full =~= front + seq![46u8] + back);
    lemma_last_dot(front, back);
    assert(full[name.len() as int] == 46u8);
    assert(full.len() > 2);
    assert(extension_dot(full) == front.len());
    assert(full.skip((front.len() + 1) as int) =~= back);
    assert(artifact_extension(Artifact::Temporary).len() == 3);
    assert(artifact_extension(Artifact::Trash).len() == 5);
}

/// Different keys have different files: the file of a key is its alone.
pub proof fn law_distinct_keys_have_distinct_files(
    primary_namespace: Seq<char>,
    secondary_namespace: Seq<char>,
    key: Seq<char>,
    other_primary_namespace: Seq<char>,
    other_secondary_namespace: Seq<char>,
    other_key: Seq<char>,
)
    requires
        namespace_fault(primary_namespace, secondary_namespace, Some(key)) is None,
        namespace_fault(other_primary_namespace, other_secondary_namespace, Some(other_key)) is None,
        dest_path(primary_namespace, secondary_namespace, Some(key)) == dest_path(
            other_primary_namespace,
            other_secondary_namespace,
            Some(other_key),
        ),
    ensures
        primary_namespace == other_primary_namespace,
        secondary_namespace == other_secondary_namespace,
        key == other_key,
{
    let a = dest_path(primary_namespace, secondary_namespace, Some(key));
    let b = dest_path(other_primary_namespace, other_secondary_namespace, Some(other_key));
    encode_utf8_decode_utf8(primary_namespace);
    encode_utf8_decode_utf8(secondary_namespace);
    encode_utf8_decode_utf8(key);
    encode_utf8_decode_utf8(other_primary_namespace);
    encode_utf8_decode_utf8(other_secondary_namespace);
    encode_utf8_decode_utf8(other_key);
    assert(a.last() == encode_utf8(key));
    assert(b.last() == encode_utf8(other_key));
    assert(a.len() == 1 <==> primary_namespace.len() == 0);
    assert(b.len() == 1 <==> other_primary_namespace.len() == 0);
    assert(a.len() == 3 <==> secondary_namespace.len() != 0);
    assert(b.len() == 3 <==> other_secondary_namespace.len() != 0);
    if a.len() > 1 {
        assert(a[0] == encode_utf8(primary_namespace));
        assert(b[0] == encode_utf8(other_primary_namespace));
    } else {
        assert(primary_namespace =~= other_primary_namespace);
    }
    if a.len() > 2 {
        assert(a[1] == encode_utf8(secondary_namespace));
        assert(b[1] == encode_utf8(other_secondary_namespace));
    } else {
        assert(secondary_namespace =~= other_secondary_namespace);
    }
}

/// No key's file is taken for an artifact, and every artifact of a key's file is recognised as
/// what it is, so that no artifact is taken for a key.
pub proof fn law_artifacts_are_told_from_keys(path: PathView, number: nat, artifact: Artifact)
    requires
        is_key_file(path),
    ensures
        artifact_of(path.last()) is None,
        artifact_of(artifact_path(path, number, artifact).last()) == Some(artifact),
        !is_key_file(artifact_path(path, number, artifact)),
        artifact_path(path, number, artifact) != path,
{
    lemma_key_file(path);
    lemma_dotless(path.last());
    lemma_artifact_name(path.last(), number, artifact);
    let other = artifact_path(path, number, artifact);
    assert(other.last() == artifact_name(path.last(), number, artifact));
    if is_key_file(other) {
        lemma_key_file(other);
    }
}

/// An artifact lies in the directory of its file, so that renaming does not leave the directory.
pub proof fn law_artifacts_lie_beside_their_file(path: PathView, number: nat, artifact: Artifact)
    requires
        path.len() > 0,
    ensures
        artifact_path(path, number, artifact).drop_last() == path.drop_last(),
{
    assert(artifact_path(path, number, artifact).drop_last() =~= path.drop_last());
}

/// Two artifacts are the same only if they belong to the same key's file, are of the same kind and
/// carry the same number.
pub proof fn law_artifacts_are_distinct(
    path: PathView,
    number: nat,
    artifact: Artifact,
    other_path: PathView,
    other_number: nat,
    other_artifact: Artifact,
)
    requires
        is_key_file(path),
        is_key_file(other_path),
        artifact_path(path, number, artifact) == artifact_path(
            other_path,
            other_number,
            other_artifact,
        ),
    ensures
        path == other_path,
        number == other_number,
        artifact == other_artifact,
{
    lemma_key_file(path);
    lemma_key_file(other_path);
    law_artifacts_lie_beside_their_file(path, number, artifact);
    law_artifacts_lie_beside_their_file(other_path, other_number, other_artifact);
    let a = path.last();
    let b = other_path.last();
    lemma_artifact_name(a, number, artifact);
    lemma_artifact_name(b, other_number, other_artifact);
    assert(artifact_path(path, number, artifact).last() == artifact_name(a, number, artifact));
    assert(artifact_path(other_path, other_number, other_artifact).last() == artifact_name(
        b,
        other_number,
        other_artifact,
    ));
    let full = artifact_name(a, number, artifact);
    assert(full == artifact_name(b, other_number, other_artifact));
    assert(artifact == other_artifact);
    // The first dot ends the file's own name.
    assert(full[a.len() as int] == 46u8);
    assert(full[b.len() as int] == 46u8);
    if a.len() < b.len() {
        assert(b[a.len() as int] == full[a.len() as int]);
    }
    if b.len() < a.len() {
        assert(a[b.len() as int] == full[b.len() as int]);
    }
    assert(a =~= full.take(a.len() as int));
    assert(b =~= full.take(b.len() as int));
    assert(path =~= path.drop_last().push(a));
    assert(other_path =~= other_path.drop_last().push(b));
    let ext = artifact_extension(artifact).len() as int;
    assert(decimal(number) =~= full.subrange((a.len() + 1) as int, full.len() - ext - 1));
    assert(decimal(other_number) =~= full.subrange((b.len() + 1) as int, full.len() - ext - 1));
    lemma_decimal_injective(number, other_number);
}

/// The last dot of a name has only other characters behind it.
proof fn lemma_last_dot_is_last(name: Seq<u8>)
    ensures
        -1 <= last_dot(name) < name.len(),
        last_dot(name) >= 0 ==> name[last_dot(name)] == 46u8,
        forall|i: int| last_dot(name) < i < name.len() ==> #[trigger] name[i] != 46u8,
    decreases name.len(),
{
    if name.len() > 0 && name.last() != 46u8 {
        lemma_last_dot_is_last(name.drop_last());
        assert forall|i: int| last_dot(name) < i < name.len() implies #[trigger] name[i]
            != 46u8 by {
            if i < name.len() - 1 {
                assert(name.drop_last()[i] == name[i]);
            }
        }
        if last_dot(name) >= 0 {
            assert(name.drop_last()[last_dot(name)] == name[last_dot(name)]);
        }
    }
}

/// Whether a name ends in some bytes, with something before them.
pub open spec fn ends_in(name: Seq<u8>, ending: Seq<u8>) -> bool {
    &&& name.len() > ending.len()
    &&& name.skip(name.len() - ending.len()) == ending
}

/// A name with an ending that begins with its only dot is known by that ending.
proof fn lemma_ending(name: Seq<u8>, ending: Seq<u8>)
    requires
        dotless(ending),
        ending.len() > 1,
    ensures
        extension(name) == Some(ending) <==> ends_in(name, seq![46u8] + ending),
{
    lemma_last_dot_is_last(name);
    let whole = seq![46u8] + ending;
    let dot = last_dot(name);
    if extension(name) == Some(ending) {
        assert(name.skip(name.len() - whole.len()) =~= whole);
    }
    if ends_in(name, whole) {
        let stem = name.take(name.len() - whole.len());
        assert(name =~= stem + name.skip(name.len() - whole.len()));
        assert(name =~= stem + seq![46u8] + ending);
        lemma_last_dot(stem, ending);
        assert(name.skip(stem.len() as int + 1) =~= ending);
    }
}

/// A file is taken for a temporary file exactly if its name ends in `.tmp`, and for a trash file
/// exactly if it ends in `.trash`, with something before the ending.
pub proof fn law_artifacts_are_known_by_their_ending(name: Seq<u8>)
    ensures
        artifact_of(name) == Some(Artifact::Temporary) <==> ends_in(
            name,
            seq![46u8, 116u8, 109u8, 112u8],
        ),
        artifact_of(name) == Some(Artifact::Trash) <==> ends_in(
            name,
            seq![46u8, 116u8, 114u8, 97u8, 115u8, 104u8],
        ),
{
    let tmp = seq![116u8, 109u8, 112u8];
    let trash = seq![116u8, 114u8, 97u8, 115u8, 104u8];
    assert(seq![46u8] + tmp =~= seq![46u8, 116u8, 109u8, 112u8]);
    assert(seq![46u8] + trash =~= seq![46u8, 116u8, 114u8, 97u8, 115u8, 104u8]);
    assert(tmp.len() == 3 && trash.len() == 5);
    lemma_ending(name, tmp);
    lemma_ending(name, trash);
    assert(artifact_extension(Artifact::Temporary) == tmp);
    assert(artifact_extension(Artifact::Trash) == trash);
}

} // verus!
