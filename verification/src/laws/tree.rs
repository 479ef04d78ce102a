//! Laws on how listings agree with one another and with what lies on the disk.

use crate::error::ErrorView;
use crate::laws::disk::Disk;
use crate::laws::listing::DirItem;
use crate::laws::listing::{dir_keys, item_keys, lemma_key_of_name};
use crate::laws::migration::Node;
use crate::laws::migration::{
    law_key_is_listed_with_its_namespaces, law_listed_key_is_that_of_the_file, lemma_lies_in,
    lies_in, nested, node_keys, tree_keys,
};
use crate::laws::names::{is_key_file, law_distinct_keys_have_distinct_files};
use crate::laws::names::{lemma_dotless, lemma_key_file, lemma_key_name};
use crate::listing::{EntryKind, EntryView};
use crate::migration::KeyTriple;
use crate::migration::{base_of, dirs_path, triple_of};
use crate::namespace::{namespace_fault, valid_kvstore_str};
use crate::path::PathView;
use crate::path::{artifact_of, component, dest_path};
use vstd::prelude::*;
use vstd::utf8::encode_utf8;

verus! {

/// Whether entries are those of the directory whose whole path is `base`: each lies in it, no two
/// have the same name, and what is below a directory among them lies in that one.
pub open spec fn well_placed(base: PathView, nodes: Seq<Node>) -> bool
    decreases nodes,
{
    nodes.len() == 0 || {
        &&& node_placed(base, nodes[0])
        &&& well_placed(base, nodes.drop_first())
        &&& forall|i: int|
            0 < i < nodes.len() ==> (#[trigger] nodes[i]).entry.file_name()
                != nodes[0].entry.file_name()
    }
}

/// Whether an entry lies in the directory whose whole path is `base`, and what is below it in it.
pub open spec fn node_placed(base: PathView, node: Node) -> bool
    decreases node,
{
    lies_in(node.entry, base) && well_placed(node.entry.path, node.children)
}

/// Whether an entry, or one below it, is a file at `path`, seen from the directory that holds the
/// entry.
pub open spec fn node_holds(node: Node, path: PathView) -> bool
    decreases node,
{
    &&& path.len() > 0
    &&& node.entry.file_name() == path[0]
    &&& if path.len() == 1 {
        node.kind == EntryKind::File
    } else {
        node.kind == EntryKind::Directory && file_at(node.children, path.drop_first())
    }
}

/// Whether there is a file at `path`, seen from the directory that holds the entries.
pub open spec fn file_at(nodes: Seq<Node>, path: PathView) -> bool
    decreases nodes,
{
    nodes.len() > 0 && (node_holds(nodes[0], path) || file_at(nodes.drop_first(), path))
}

/// The path of a key's file.
pub open spec fn file_of(triple: KeyTriple) -> PathView {
    dest_path(triple.0, triple.1, Some(triple.2))
}

/// Whether a key is allowed with its namespaces.
pub open spec fn is_allowed(triple: KeyTriple) -> bool {
    namespace_fault(triple.0, triple.1, Some(triple.2)) is None
}

/// Whether a key's file lies below the directory at `dir`.
pub open spec fn is_below(triple: KeyTriple, dir: PathView) -> bool {
    &&& is_allowed(triple)
    &&& dir.len() < file_of(triple).len()
    &&& file_of(triple).take(dir.len() as int) == dir
}

/// The path of a key's file, seen from the directory at `dir`.
pub open spec fn rest_of(triple: KeyTriple, dir: PathView) -> PathView {
    file_of(triple).skip(dir.len() as int)
}

/// The components of a key's path are no artifacts.
proof fn lemma_file_of(triple: KeyTriple)
    requires
        is_allowed(triple),
    ensures
        0 < file_of(triple).len() <= 3,
        forall|i: int|
            0 <= i < file_of(triple).len() ==> artifact_of(#[trigger] file_of(triple)[i]) is None,
{
    let path = file_of(triple);
    lemma_key_name(triple.0);
    lemma_key_name(triple.1);
    lemma_key_name(triple.2);
    assert forall|i: int| 0 <= i < path.len() implies artifact_of(#[trigger] path[i]) is None by {
        lemma_dotless(path[i]);
    }
}

/// A file that is in or below some entries is in or below the one that its path begins with.
proof fn lemma_first_name(base: PathView, nodes: Seq<Node>, path: PathView)
    requires
        well_placed(base, nodes),
        file_at(nodes, path),
    ensures
        path.len() > 0,
        exists|i: int|
            0 <= i < nodes.len() && (#[trigger] nodes[i]).entry.file_name() == path[0],
    decreases nodes.len(),
{
    if !node_holds(nodes[0], path) {
        lemma_first_name(base, nodes.drop_first(), path);
        let i = choose|i: int|
            0 <= i < nodes.drop_first().len() && (
            #[trigger] nodes.drop_first()[i]).entry.file_name() == path[0];
        assert(nodes[i + 1].entry.file_name() == path[0]);
    } else {
        assert(nodes[0].entry.file_name() == path[0]);
    }
}

/// Entering a directory that lies in the one that was entered last keeps the directories nested.
proof fn lemma_nested_push(base: PathView, dirs: Seq<EntryView>, entry: EntryView)
    requires
        nested(base, dirs),
        lies_in(entry, base_of(base, dirs, dirs.len() as int)),
    ensures
        nested(base, dirs.push(entry)),
{
    let inner = dirs.push(entry);
    assert forall|i: int| 0 <= i < inner.len() implies lies_in(
        #[trigger] inner[i],
        base_of(base, inner, i),
    ) by {
        if i < dirs.len() {
            assert(inner[i] == dirs[i]);
        }
        assert(base_of(base, inner, i) == base_of(base, dirs, i));
    }
}

/// The keys that a listing of all keys finds in and below one entry.
proof fn lemma_node_keys(
    base: PathView,
    dirs: Seq<EntryView>,
    node: Node,
    found: Seq<KeyTriple>,
)
    requires
        dirs.len() <= 2,
        nested(base, dirs),
        node_placed(base_of(base, dirs, dirs.len() as int), node),
        node_keys(base, dirs, node) == Ok::<Seq<KeyTriple>, ErrorView>(found),
    ensures
        found.no_duplicates(),
        forall|triple: KeyTriple| #[trigger]
            found.contains(triple) <==> is_below(triple, dirs_path(dirs)) && node_holds(
                node,
                rest_of(triple, dirs_path(dirs)),
            ),
    decreases node,
{
    let dir = dirs_path(dirs);
    let entry = node.entry;
    assert forall|triple: KeyTriple| is_below(triple, dir) && #[trigger] node_holds(
        node,
        rest_of(triple, dir),
    ) implies artifact_of(entry.file_name()) is None by {
        lemma_file_of(triple);
        assert(file_of(triple)[dir.len() as int] == rest_of(triple, dir)[0]);
    }
    if artifact_of(entry.file_name()) is Some {
    } else if node.kind == EntryKind::File {
        let triple = triple_of(base, dirs, entry)->Ok_0;
        law_listed_key_is_that_of_the_file(base, dirs, entry, triple);
        assert(rest_of(triple, dir) =~= seq![entry.file_name()]);
        assert(file_of(triple).take(dir.len() as int) =~= dir);
        assert(found[0] == triple);
        assert forall|other: KeyTriple| is_below(other, dir) && #[trigger] node_holds(
            node,
            rest_of(other, dir),
        ) implies other == triple by {
            let rest = rest_of(other, dir);
            assert(rest =~= seq![entry.file_name()]);
            assert(file_of(other) =~= dir + rest);
            assert(file_of(triple) =~= dir + rest);
            law_distinct_keys_have_distinct_files(
                other.0,
                other.1,
                other.2,
                triple.0,
                triple.1,
                triple.2,
            );
        }
    } else {
        let inner = dirs.push(entry);
        assert(dirs_path(inner) =~= dir.push(entry.file_name()));
        lemma_nested_push(base, dirs, entry);
        lemma_tree_keys(base, inner, node.children, found);
        assert forall|triple: KeyTriple| #[trigger] found.contains(triple) <==> is_below(
            triple,
            dir,
        ) && node_holds(node, rest_of(triple, dir)) by {
            lemma_step_down(triple, dir, node);
        }
    }
}

/// A key's file lies in a directory entry exactly if it does so seen from that directory.
proof fn lemma_step_down(triple: KeyTriple, dir: PathView, node: Node)
    requires
        node.kind == EntryKind::Directory,
    ensures
        is_below(triple, dir) && node_holds(node, rest_of(triple, dir)) <==> is_below(
            triple,
            dir.push(node.entry.file_name()),
        ) && file_at(node.children, rest_of(triple, dir.push(node.entry.file_name()))),
{
    let name = node.entry.file_name();
    let inner = dir.push(name);
    let path = file_of(triple);
    if is_below(triple, dir) && node_holds(node, rest_of(triple, dir)) {
        assert(rest_of(triple, dir)[0] == path[dir.len() as int]);
        assert(path.take(inner.len() as int) =~= inner);
        assert(rest_of(triple, dir).drop_first() =~= rest_of(triple, inner));
    }
    if is_below(triple, inner) {
        assert(path.take(dir.len() as int) =~= path.take(inner.len() as int).take(
            dir.len() as int,
        ));
        assert(inner.take(dir.len() as int) =~= dir);
        assert(path[dir.len() as int] == path.take(inner.len() as int)[dir.len() as int]);
        assert(rest_of(triple, dir)[0] == name);
        assert(rest_of(triple, dir).drop_first() =~= rest_of(triple, inner));
    }
}

/// The keys that a listing of all keys finds in and below some entries.
proof fn lemma_tree_keys(
    base: PathView,
    dirs: Seq<EntryView>,
    nodes: Seq<Node>,
    found: Seq<KeyTriple>,
)
    requires
        dirs.len() <= 2,
        nested(base, dirs),
        well_placed(base_of(base, dirs, dirs.len() as int), nodes),
        tree_keys(base, dirs, nodes) == Ok::<Seq<KeyTriple>, ErrorView>(found),
    ensures
        found.no_duplicates(),
        forall|triple: KeyTriple| #[trigger]
            found.contains(triple) <==> is_below(triple, dirs_path(dirs)) && file_at(
                nodes,
                rest_of(triple, dirs_path(dirs)),
            ),
    decreases nodes,
{
    if nodes.len() > 0 {
        let dir = dirs_path(dirs);
        let here = base_of(base, dirs, dirs.len() as int);
        let rest = nodes.drop_first();
        let front = node_keys(base, dirs, nodes[0])->Ok_0;
        let back = tree_keys(base, dirs, rest)->Ok_0;
        lemma_node_keys(base, dirs, nodes[0], front);
        lemma_tree_keys(base, dirs, rest, back);
        assert(found == front + back);
        assert forall|triple: KeyTriple| front.contains(triple) implies !#[trigger] back.contains(
            triple,
        ) by {
            if back.contains(triple) {
                lemma_first_name(here, rest, rest_of(triple, dir));
                let i = choose|i: int|
                    0 <= i < rest.len() && (#[trigger] rest[i]).entry.file_name() == rest_of(
                        triple,
                        dir,
                    )[0];
                assert(nodes[i + 1] == rest[i]);
            }
        }
        lemma_concat(front, back);
    }
}

/// What two lists hold that have nothing in common.
proof fn lemma_concat<T>(front: Seq<T>, back: Seq<T>)
    requires
        front.no_duplicates(),
        back.no_duplicates(),
        forall|x: T| front.contains(x) ==> !#[trigger] back.contains(x),
    ensures
        (front + back).no_duplicates(),
        forall|x: T| #[trigger]
            (front + back).contains(x) <==> front.contains(x) || back.contains(x),
{
    let all = front + back;
    assert forall|x: T| #[trigger] all.contains(x) <==> front.contains(x) || back.contains(x) by {
        if front.contains(x) {
            let i = choose|i: int| 0 <= i < front.len() && front[i] == x;
            assert(all[i] == x);
        }
        if back.contains(x) {
            let i = choose|i: int| 0 <= i < back.len() && back[i] == x;
            assert(all[front.len() + i] == x);
        }
    }
    assert forall|i: int, j: int| 0 <= i < all.len() && 0 <= j < all.len() && i != j implies all[i]
        != all[j] by {
        if i < front.len() && j >= front.len() {
            assert(front.contains(all[i]));
            assert(back.contains(back[j - front.len()]));
        }
        if j < front.len() && i >= front.len() {
            assert(front.contains(all[j]));
            assert(back.contains(back[i - front.len()]));
        }
    }
}

/// A listing of all keys that ends well holds each key once, and exactly those whose files are
/// there.
pub proof fn law_listing_of_all_keys_holds_each_file_once(
    base: PathView,
    nodes: Seq<Node>,
    all: Seq<KeyTriple>,
)
    requires
        well_placed(base, nodes),
        tree_keys(base, seq![], nodes) == Ok::<Seq<KeyTriple>, ErrorView>(all),
    ensures
        all.no_duplicates(),
        forall|triple: KeyTriple| #[trigger]
            all.contains(triple) <==> is_allowed(triple) && file_at(nodes, file_of(triple)),
{
    let none = Seq::<EntryView>::empty();
    lemma_tree_keys(base, none, nodes, all);
    assert(dirs_path(none) =~= seq![]);
    assert forall|triple: KeyTriple| #[trigger] all.contains(triple) <==> is_allowed(triple)
        && file_at(nodes, file_of(triple)) by {
        assert(file_of(triple).take(0) =~= seq![]);
        assert(rest_of(triple, seq![]) =~= file_of(triple));
        if is_allowed(triple) {
            lemma_file_of(triple);
        }
    }
}

/// What a directory entry holds at `path`, seen from the directory that holds the entry.
pub open spec fn node_dir_at(node: Node, path: PathView) -> Option<Seq<Node>>
    decreases node, 0nat,
{
    if path.len() <= 1 {
        Some(node.children)
    } else {
        dir_at(node.children, path.drop_first())
    }
}

/// What the directory at `path` holds, seen from the directory that holds the entries.
pub open spec fn dir_at(nodes: Seq<Node>, path: PathView) -> Option<Seq<Node>>
    decreases nodes, 1nat,
{
    if path.len() == 0 {
        Some(nodes)
    } else if nodes.len() == 0 {
        None
    } else if nodes[0].entry.file_name() == path[0] && nodes[0].kind == EntryKind::Directory {
        node_dir_at(nodes[0], path)
    } else {
        dir_at(nodes.drop_first(), path)
    }
}

/// The entries of a directory without what is below them.
pub open spec fn items_of(nodes: Seq<Node>) -> Seq<DirItem> {
    Seq::new(nodes.len(), |i: int| DirItem { entry: nodes[i].entry, kind: nodes[i].kind })
}

/// What a directory below holds lies in it, and a file in it is a file below the entries.
proof fn lemma_dir_at(base: PathView, nodes: Seq<Node>, path: PathView, name: Seq<u8>)
    requires
        well_placed(base, nodes),
    ensures
        file_at(nodes, path.push(name)) <==> dir_at(nodes, path) is Some && file_at(
            dir_at(nodes, path)->0,
            seq![name],
        ),
        dir_at(nodes, path) matches Some(inner) ==> well_placed(base + path, inner),
    decreases nodes,
{
    let full = path.push(name);
    if path.len() == 0 {
        assert(full =~= seq![name]);
        assert(base + path =~= base);
    } else if nodes.len() > 0 {
        let node = nodes[0];
        let rest = nodes.drop_first();
        if node.entry.file_name() == path[0] && node.kind == EntryKind::Directory {
            let inner = path.drop_first();
            assert(full.drop_first() =~= inner.push(name));
            assert(base.push(path[0]) + inner =~= base + path);
            lemma_node_dir_at(base, node, path, name);
            if file_at(rest, full) {
                lemma_first_name(base, rest, full);
                let i = choose|i: int|
                    0 <= i < rest.len() && (#[trigger] rest[i]).entry.file_name() == full[0];
                assert(nodes[i + 1] == rest[i]);
            }
        } else {
            assert(full[0] == path[0]);
            assert(!node_holds(node, full));
            lemma_dir_at(base, rest, path, name);
        }
    }
}

/// What a directory entry holds lies in it, and a file in it is a file below the entry.
proof fn lemma_node_dir_at(base: PathView, node: Node, path: PathView, name: Seq<u8>)
    requires
        node_placed(base, node),
        path.len() > 0,
        node.entry.file_name() == path[0],
        node.kind == EntryKind::Directory,
    ensures
        node_holds(node, path.push(name)) <==> node_dir_at(node, path) is Some && file_at(
            node_dir_at(node, path)->0,
            seq![name],
        ),
        node_dir_at(node, path) matches Some(inner) ==> well_placed(base + path, inner),
    decreases node,
{
    let inner = path.drop_first();
    assert(path.push(name).drop_first() =~= inner.push(name));
    assert(node.entry.path + inner =~= base + path);
    lemma_dir_at(node.entry.path, node.children, inner, name);
}

/// The keys that a listing of one directory finds.
proof fn lemma_dir_keys(base: PathView, nodes: Seq<Node>, found: Seq<Seq<char>>)
    requires
        well_placed(base, nodes),
        dir_keys(base, items_of(nodes)) == Ok::<Seq<Seq<char>>, ErrorView>(found),
    ensures
        found.no_duplicates(),
        forall|key: Seq<char>| #[trigger]
            found.contains(key) <==> valid_kvstore_str(key) && key.len() > 0 && file_at(
                nodes,
                seq![encode_utf8(key)],
            ),
    decreases nodes.len(),
{
    if nodes.len() > 0 {
        let node = nodes[0];
        let rest = nodes.drop_first();
        let item = items_of(nodes)[0];
        assert(items_of(nodes).drop_first() =~= items_of(rest));
        let front = item_keys(base, item)->Ok_0;
        let back = dir_keys(base, items_of(rest))->Ok_0;
        lemma_dir_keys(base, rest, back);
        assert(found == front + back);
        assert(node_placed(base, node));
        assert(lies_in(node.entry, base));
        assert forall|key: Seq<char>| #[trigger] front.contains(key) <==> valid_kvstore_str(key)
            && key.len() > 0 && node_holds(node, seq![encode_utf8(key)]) by {
            if front.contains(key) {
                lemma_lies_in(base, node.entry, key);
                assert(component(key)[0] == node.entry.file_name());
            }
            if valid_kvstore_str(key) && node_holds(node, seq![encode_utf8(key)]) {
                lemma_key_name(key);
                lemma_dotless(encode_utf8(key));
                lemma_key_of_name(base, node.entry, key);
                assert(front[0] == key);
            }
        }
        assert forall|key: Seq<char>| front.contains(key) implies !#[trigger] back.contains(
            key,
        ) by {
            if back.contains(key) {
                lemma_first_name(base, rest, seq![encode_utf8(key)]);
                let i = choose|i: int|
                    0 <= i < rest.len() && (#[trigger] rest[i]).entry.file_name() == seq![
                        encode_utf8(key),
                    ][0];
                assert(nodes[i + 1] == rest[i]);
            }
        }
        lemma_concat(front, back);
    }
}

/// A listing of one namespace that ends well holds each key once, and exactly those whose files are
/// in the directory.
pub proof fn law_listing_holds_each_file_once(
    base: PathView,
    nodes: Seq<Node>,
    keys: Seq<Seq<char>>,
)
    requires
        well_placed(base, nodes),
        dir_keys(base, items_of(nodes)) == Ok::<Seq<Seq<char>>, ErrorView>(keys),
    ensures
        keys.no_duplicates(),
        forall|key: Seq<char>| #[trigger]
            keys.contains(key) <==> valid_kvstore_str(key) && key.len() > 0 && file_at(
                nodes,
                seq![encode_utf8(key)],
            ),
{
    lemma_dir_keys(base, nodes, keys);
}

/// The listing of all keys, restricted to one namespace, agrees with the listing of that namespace:
/// a key is in the one exactly if it is in the other. Where the namespace has no directory there
/// is no key of it in the listing of all keys either.
pub proof fn law_listings_agree(
    base: PathView,
    nodes: Seq<Node>,
    all: Seq<KeyTriple>,
    primary_namespace: Seq<char>,
    secondary_namespace: Seq<char>,
    keys: Seq<Seq<char>>,
)
    requires
        well_placed(base, nodes),
        tree_keys(base, seq![], nodes) == Ok::<Seq<KeyTriple>, ErrorView>(all),
        namespace_fault(primary_namespace, secondary_namespace, None) is None,
        ({
            let dir = dest_path(primary_namespace, secondary_namespace, None);
            match dir_at(nodes, dir) {
                Some(inner) => dir_keys(base + dir, items_of(inner)) == Ok::<_, ErrorView>(keys),
                None => keys.len() == 0,
            }
        }),
    ensures
        forall|key: Seq<char>| #[trigger]
            keys.contains(key) <==> all.contains((primary_namespace, secondary_namespace, key)),
{
    let dir = dest_path(primary_namespace, secondary_namespace, None);
    law_listing_of_all_keys_holds_each_file_once(base, nodes, all);
    if let Some(inner) = dir_at(nodes, dir) {
        lemma_dir_at(base, nodes, dir, seq![]);
        lemma_dir_keys(base + dir, inner, keys);
    }
    assert forall|key: Seq<char>| #[trigger] keys.contains(key) <==> all.contains(
        (primary_namespace, secondary_namespace, key),
    ) by {
        let triple = (primary_namespace, secondary_namespace, key);
        if key.len() > 0 {
            assert(file_of(triple) =~= dir.push(encode_utf8(key)));
            lemma_dir_at(base, nodes, dir, encode_utf8(key));
        }
    }
}

/// Whether the entries are what a listing of a disk is told: there is a file exactly where the disk
/// holds one.
pub open spec fn tells(nodes: Seq<Node>, disk: Disk) -> bool {
    forall|path: PathView| #[trigger] file_at(nodes, path) <==> disk.contains_key(path)
}

/// Whether a disk holds nothing but the files of keys and artifacts.
pub open spec fn is_stores_own(disk: Disk) -> bool {
    forall|path: PathView| #[trigger]
        disk.contains_key(path) ==> is_key_file(path) || (path.len() > 0 && artifact_of(
            path.last(),
        ) is Some)
}

/// Whether an entry, or one below it, is of the given kind and at `path`, seen from the directory
/// that holds the entry.
pub open spec fn node_is_at(node: Node, path: PathView, kind: EntryKind) -> bool
    decreases node,
{
    &&& path.len() > 0
    &&& node.entry.file_name() == path[0]
    &&& if path.len() == 1 {
        node.kind == kind
    } else {
        node.kind == EntryKind::Directory && kind_at(node.children, path.drop_first(), kind)
    }
}

/// Whether there is something of the given kind at `path`, seen from the directory that holds the
/// entries.
pub open spec fn kind_at(nodes: Seq<Node>, path: PathView, kind: EntryKind) -> bool
    decreases nodes,
{
    nodes.len() > 0 && (node_is_at(nodes[0], path, kind) || kind_at(
        nodes.drop_first(),
        path,
        kind,
    ))
}

/// Whether the entries are what a listing of a disk with these directories is told: there is a
/// directory exactly where the disk has one, and nothing that is neither file nor directory.
pub open spec fn tells_dirs(nodes: Seq<Node>, dirs: Set<PathView>) -> bool {
    &&& forall|path: PathView| #[trigger]
        kind_at(nodes, path, EntryKind::Directory) <==> dirs.contains(path)
    &&& forall|path: PathView| !#[trigger] kind_at(nodes, path, EntryKind::Other)
}

/// Whether directories lead to nothing but the files of keys.
pub open spec fn lead_to_keys(dirs: Set<PathView>) -> bool {
    forall|path: PathView| #[trigger] dirs.contains(path) ==> leads_to_key(path)
}

/// Whether a directory leads to the file of a key: the file can lie in it or further down.
pub open spec fn leads_to_key(path: PathView) -> bool {
    path.len() > 0 && exists|file: PathView| #[trigger]
        is_key_file(file) && path.is_prefix_of(file.drop_last())
}

/// Whether there is nothing but files and directories among the entries and below them, and
/// directories no deeper than namespaces are, where `depth` directories lead to the entries.
spec fn is_plain(nodes: Seq<Node>, depth: nat) -> bool
    decreases nodes,
{
    nodes.len() == 0 || (is_plain_node(nodes[0], depth) && is_plain(nodes.drop_first(), depth))
}

/// Whether an entry is a file, or a directory no deeper than namespaces are, and so for what is
/// below it.
spec fn is_plain_node(node: Node, depth: nat) -> bool
    decreases node,
{
    match node.kind {
        EntryKind::File => true,
        EntryKind::Directory => depth < 2 && is_plain(node.children, depth + 1),
        EntryKind::Other => false,
    }
}

/// Entries without anything but files and directories no deeper than namespaces are plain.
proof fn lemma_plain(nodes: Seq<Node>, depth: nat)
    requires
        forall|path: PathView| #[trigger]
            kind_at(nodes, path, EntryKind::Directory) ==> depth + path.len() <= 2,
        forall|path: PathView| !#[trigger] kind_at(nodes, path, EntryKind::Other),
    ensures
        is_plain(nodes, depth),
    decreases nodes,
{
    if nodes.len() > 0 {
        assert forall|path: PathView| #[trigger] node_is_at(
            nodes[0],
            path,
            EntryKind::Directory,
        ) implies depth + path.len() <= 2 by {
            assert(kind_at(nodes, path, EntryKind::Directory));
        }
        assert forall|path: PathView| !#[trigger] node_is_at(nodes[0], path, EntryKind::Other) by {
            assert(!kind_at(nodes, path, EntryKind::Other));
        }
        lemma_plain_node(nodes[0], depth);
        assert forall|path: PathView| #[trigger] kind_at(
            nodes.drop_first(),
            path,
            EntryKind::Directory,
        ) implies depth + path.len() <= 2 by {
            assert(kind_at(nodes, path, EntryKind::Directory));
        }
        assert forall|path: PathView| !#[trigger] kind_at(
            nodes.drop_first(),
            path,
            EntryKind::Other,
        ) by {
            assert(!kind_at(nodes, path, EntryKind::Other));
        }
        lemma_plain(nodes.drop_first(), depth);
    }
}

/// An entry with nothing but files and directories no deeper than namespaces below it is plain.
proof fn lemma_plain_node(node: Node, depth: nat)
    requires
        forall|path: PathView| #[trigger]
            node_is_at(node, path, EntryKind::Directory) ==> depth + path.len() <= 2,
        forall|path: PathView| !#[trigger] node_is_at(node, path, EntryKind::Other),
    ensures
        is_plain_node(node, depth),
    decreases node,
{
    let name = node.entry.file_name();
    let here = seq![name];
    assert(here.len() == 1 && here[0] == name);
    assert(node_is_at(node, here, node.kind));
    if node.kind == EntryKind::Directory {
        assert forall|path: PathView, kind: EntryKind| #[trigger] kind_at(
            node.children,
            path,
            kind,
        ) implies node_is_at(node, here + path, kind) && (here + path).len() == 1 + path.len() by {
            lemma_kind_at(node.children, path, kind);
            assert((here + path).drop_first() =~= path);
            assert((here + path)[0] == name);
        }
        lemma_plain(node.children, depth + 1);
    }
}

/// Nothing is at the empty path.
proof fn lemma_kind_at(nodes: Seq<Node>, path: PathView, kind: EntryKind)
    requires
        kind_at(nodes, path, kind),
    ensures
        path.len() > 0,
    decreases nodes.len(),
{
    if !node_is_at(nodes[0], path, kind) {
        lemma_kind_at(nodes.drop_first(), path, kind);
    }
}

/// A path below the directory at `dir` that the store put there.
spec fn own_path(dir: PathView, rest: PathView) -> bool {
    rest.len() > 0 && (is_key_file(dir + rest) || artifact_of(rest.last()) is Some)
}

/// A listing of what the store put on the disk ends well.
proof fn lemma_tree_keys_ok(base: PathView, dirs: Seq<EntryView>, nodes: Seq<Node>)
    requires
        dirs.len() <= 2,
        nested(base, dirs),
        well_placed(base_of(base, dirs, dirs.len() as int), nodes),
        is_plain(nodes, dirs.len()),
        forall|rest: PathView| #[trigger]
            file_at(nodes, rest) ==> own_path(dirs_path(dirs), rest),
    ensures
        tree_keys(base, dirs, nodes) is Ok,
    decreases nodes,
{
    if nodes.len() > 0 {
        assert forall|rest: PathView| #[trigger] node_holds(nodes[0], rest) implies own_path(
            dirs_path(dirs),
            rest,
        ) by {
            assert(file_at(nodes, rest));
        }
        lemma_node_keys_ok(base, dirs, nodes[0]);
        assert forall|rest: PathView| #[trigger] file_at(
            nodes.drop_first(),
            rest,
        ) implies own_path(dirs_path(dirs), rest) by {
            assert(file_at(nodes, rest));
        }
        lemma_tree_keys_ok(base, dirs, nodes.drop_first());
    }
}

/// A listing of what the store put below one entry ends well.
proof fn lemma_node_keys_ok(base: PathView, dirs: Seq<EntryView>, node: Node)
    requires
        dirs.len() <= 2,
        nested(base, dirs),
        node_placed(base_of(base, dirs, dirs.len() as int), node),
        is_plain_node(node, dirs.len()),
        forall|rest: PathView| #[trigger]
            node_holds(node, rest) ==> own_path(dirs_path(dirs), rest),
    ensures
        node_keys(base, dirs, node) is Ok,
    decreases node,
{
    let dir = dirs_path(dirs);
    let entry = node.entry;
    if artifact_of(entry.file_name()) is Some {
    } else if node.kind == EntryKind::File {
        let rest = seq![entry.file_name()];
        assert(node_holds(node, rest));
        assert(rest.last() == entry.file_name());
        let path = dir + rest;
        assert(path =~= dir.push(entry.file_name()));
        let (p, s, k) = choose|p: Seq<char>, s: Seq<char>, k: Seq<char>|
            namespace_fault(p, s, Some(k)) is None && path == #[trigger] dest_path(p, s, Some(k));
        law_key_is_listed_with_its_namespaces(base, dirs, entry, (p, s, k));
    } else {
        let inner = dirs.push(entry);
        assert(dirs_path(inner) =~= dir.push(entry.file_name()));
        lemma_nested_push(base, dirs, entry);
        assert forall|rest: PathView| #[trigger] file_at(node.children, rest) implies own_path(
            dirs_path(inner),
            rest,
        ) by {
            lemma_first_name(entry.path, node.children, rest);
            let whole = seq![entry.file_name()] + rest;
            assert(whole.drop_first() =~= rest);
            assert(node_holds(node, whole));
            assert(own_path(dir, whole));
            assert(whole.last() == rest.last());
            assert(dir + whole =~= dirs_path(inner) + rest);
        }
        lemma_tree_keys_ok(base, inner, node.children);
    }
}

/// A listing of all keys of a disk that holds nothing but what the store put there ends well, and
/// gives exactly the keys whose files the disk holds, each once: nothing is lost by copying every
/// key that is listed.
pub proof fn law_listing_of_all_keys_gives_what_is_stored(
    base: PathView,
    nodes: Seq<Node>,
    disk: Disk,
    dirs: Set<PathView>,
)
    requires
        well_placed(base, nodes),
        tells(nodes, disk),
        tells_dirs(nodes, dirs),
        is_stores_own(disk),
        lead_to_keys(dirs),
    ensures
        tree_keys(base, seq![], nodes) is Ok,
        tree_keys(base, seq![], nodes)->Ok_0.no_duplicates(),
        forall|triple: KeyTriple| #[trigger]
            tree_keys(base, seq![], nodes)->Ok_0.contains(triple) <==> is_allowed(triple)
                && disk.contains_key(file_of(triple)),
{
    let none = Seq::<EntryView>::empty();
    assert(dirs_path(none) =~= seq![]);
    assert forall|rest: PathView| #[trigger] file_at(nodes, rest) implies own_path(
        dirs_path(none),
        rest,
    ) by {
        assert(disk.contains_key(rest));
        assert(dirs_path(none) + rest =~= rest);
        lemma_first_name(base, nodes, rest);
    }
    assert forall|path: PathView| #[trigger] kind_at(
        nodes,
        path,
        EntryKind::Directory,
    ) implies path.len() <= 2 by {
        assert(dirs.contains(path));
        let file = choose|file: PathView| #[trigger]
            is_key_file(file) && path.is_prefix_of(file.drop_last());
        lemma_key_file(file);
    }
    lemma_plain(nodes, 0);
    lemma_tree_keys_ok(base, none, nodes);
    law_listing_of_all_keys_holds_each_file_once(
        base,
        nodes,
        tree_keys(base, seq![], nodes)->Ok_0,
    );
}

/// A listing of one namespace that ends well gives exactly the keys whose files the disk holds.
pub proof fn law_listing_gives_what_is_stored(
    base: PathView,
    nodes: Seq<Node>,
    disk: Disk,
    primary_namespace: Seq<char>,
    secondary_namespace: Seq<char>,
    inner: Seq<Node>,
    keys: Seq<Seq<char>>,
)
    requires
        well_placed(base, nodes),
        tells(nodes, disk),
        namespace_fault(primary_namespace, secondary_namespace, None) is None,
        dir_at(nodes, dest_path(primary_namespace, secondary_namespace, None)) == Some(inner),
        dir_keys(
            base + dest_path(primary_namespace, secondary_namespace, None),
            items_of(inner),
        ) == Ok::<Seq<Seq<char>>, ErrorView>(keys),
    ensures
        keys.no_duplicates(),
        forall|key: Seq<char>| #[trigger]
            keys.contains(key) <==> is_allowed((primary_namespace, secondary_namespace, key))
                && disk.contains_key(dest_path(primary_namespace, secondary_namespace, Some(key))),
{
    let dir = dest_path(primary_namespace, secondary_namespace, None);
    lemma_dir_at(base, nodes, dir, seq![]);
    lemma_dir_keys(base + dir, inner, keys);
    assert forall|key: Seq<char>| #[trigger] keys.contains(key) <==> is_allowed(
        (primary_namespace, secondary_namespace, key),
    ) && disk.contains_key(dest_path(primary_namespace, secondary_namespace, Some(key))) by {
        if key.len() > 0 {
            let path = dest_path(primary_namespace, secondary_namespace, Some(key));
            assert(path =~= dir.push(encode_utf8(key)));
            lemma_dir_at(base, nodes, dir, encode_utf8(key));
            assert(file_at(nodes, path) <==> disk.contains_key(path));
        }
    }
}

} // verus!
