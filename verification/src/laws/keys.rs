//! Laws on which namespaces and keys are allowed, and on the paths of their files.

use crate::error::{ErrorKind, ErrorView};
use crate::laws::names::dotless;
use crate::laws::names::lemma_dotless;
use crate::namespace::NamespaceFault;
use crate::namespace::{fault_error, is_key_char, namespace_fault, valid_kvstore_str};
use crate::path::{Artifact, PathView};
use crate::path::{artifact_path, dest_dir_path, dest_path, file_stem};
use crate::text::{decimal, lemma_decimal_digits, printable_text};
use vstd::prelude::*;
use vstd::utf8::encode_utf8;

verus! {

/// Whether a text is made of at most 120 ASCII letters, ASCII digits, underscores and hyphens.
pub open spec fn plain(text: Seq<char>) -> bool {
    &&& text.len() <= 120
    &&& forall|i: int|
        #![trigger text[i]]
        0 <= i < text.len() ==> {
            let c = text[i];
            ||| 'a' <= c <= 'z'
            ||| 'A' <= c <= 'Z'
            ||| '0' <= c <= '9'
            ||| c == '_'
            ||| c == '-'
        }
}

/// A text is accepted exactly if it is made of at most 120 ASCII letters, ASCII digits, underscores
/// and hyphens, whichever of them it begins or ends with.
pub proof fn law_texts_are_accepted_by_their_characters(text: Seq<char>)
    ensures
        valid_kvstore_str(text) <==> plain(text),
{
    if plain(text) {
        assert forall|i: int| 0 <= i < text.len() implies is_key_char(#[trigger] text[i]) by {}
    }
    if valid_kvstore_str(text) {
        assert forall|i: int| #![trigger text[i]] 0 <= i < text.len() implies {
            let c = text[i];
            ||| 'a' <= c <= 'z'
            ||| 'A' <= c <= 'Z'
            ||| '0' <= c <= '9'
            ||| c == '_'
            ||| c == '-'
        } by {
            assert(is_key_char(text[i]));
        }
    }
}

/// A part of an accepted text is accepted, and so are two accepted texts put together, unless they
/// are too long.
pub proof fn law_accepted_texts_can_be_cut_and_joined(a: Seq<char>, b: Seq<char>)
    requires
        a.len() + b.len() <= 120,
    ensures
        valid_kvstore_str(a + b) <==> valid_kvstore_str(a) && valid_kvstore_str(b),
        valid_kvstore_str(a) ==> valid_kvstore_str(a.reverse()),
{
    let whole = a + b;
    if valid_kvstore_str(whole) {
        assert forall|i: int| 0 <= i < a.len() implies is_key_char(#[trigger] a[i]) by {
            assert(whole[i] == a[i]);
        }
        assert forall|i: int| 0 <= i < b.len() implies is_key_char(#[trigger] b[i]) by {
            assert(whole[a.len() + i] == b[i]);
        }
    }
    if valid_kvstore_str(a) && valid_kvstore_str(b) {
        assert forall|i: int| 0 <= i < whole.len() implies is_key_char(#[trigger] whole[i]) by {
            if i < a.len() {
                assert(whole[i] == a[i]);
            } else {
                assert(whole[i] == b[i - a.len()]);
            }
        }
    }
}

/// Namespaces are accepted exactly if they are plain and there is a secondary one only below a
/// primary one. A key is accepted in them exactly if it is plain and not empty. What is refused is
/// refused for an empty key first, for a missing primary namespace next, and else for a text that
/// is not plain.
pub proof fn law_names_are_accepted_or_refused(
    primary_namespace: Seq<char>,
    secondary_namespace: Seq<char>,
    key: Seq<char>,
)
    ensures
        namespace_fault(primary_namespace, secondary_namespace, Some(key)) is None <==> {
            &&& plain(primary_namespace)
            &&& plain(secondary_namespace)
            &&& plain(key)
            &&& key.len() > 0
            &&& secondary_namespace.len() > 0 ==> primary_namespace.len() > 0
        },
        namespace_fault(primary_namespace, secondary_namespace, Some(key)) == Some(
            NamespaceFault::EmptyKey,
        ) <==> key.len() == 0,
        namespace_fault(primary_namespace, secondary_namespace, Some(key)) == Some(
            NamespaceFault::EmptyPrimaryNamespace,
        ) <==> key.len() > 0 && primary_namespace.len() == 0 && secondary_namespace.len() > 0,
        namespace_fault(primary_namespace, secondary_namespace, None) is None <==> {
            &&& plain(primary_namespace)
            &&& plain(secondary_namespace)
            &&& secondary_namespace.len() > 0 ==> primary_namespace.len() > 0
        },
        namespace_fault(primary_namespace, secondary_namespace, None) != Some(
            NamespaceFault::EmptyKey,
        ),
        namespace_fault(primary_namespace, secondary_namespace, None) == Some(
            NamespaceFault::EmptyPrimaryNamespace,
        ) <==> primary_namespace.len() == 0 && secondary_namespace.len() > 0,
{
    law_texts_are_accepted_by_their_characters(primary_namespace);
    law_texts_are_accepted_by_their_characters(secondary_namespace);
    law_texts_are_accepted_by_their_characters(key);
}

/// A refusal names what was to be done, shows the namespaces and the key in printable characters,
/// and says what is wrong with them.
pub proof fn law_refusals_say_what_is_wrong(
    primary_namespace: Seq<char>,
    secondary_namespace: Seq<char>,
    key: Seq<char>,
    operation: Seq<char>,
    fault: NamespaceFault,
)
    ensures
        ({
            let namespaces = printable_text(primary_namespace) + "/"@ + printable_text(
                secondary_namespace,
            );
            let file = namespaces + "/"@ + printable_text(key);
            let file_reason = match fault {
                NamespaceFault::EmptyKey => "key may not be empty."@,
                NamespaceFault::EmptyPrimaryNamespace => "primary namespace may not be empty if a non-empty secondary namespace is given."@,
                NamespaceFault::InvalidText => "primary namespace, secondary namespace, and key must be valid."@,
            };
            let reason = match fault {
                NamespaceFault::EmptyKey => "key may not be empty."@,
                NamespaceFault::EmptyPrimaryNamespace => "primary namespace may not be empty if a non-empty secondary namespace is given."@,
                NamespaceFault::InvalidText => "primary namespace and secondary namespace must be valid."@,
            };
            &&& fault_error(primary_namespace, secondary_namespace, Some(key), operation, fault)
                == (ErrorView {
                kind: ErrorKind::Other,
                message: Some("Failed to "@ + operation + " "@ + file + ": "@ + file_reason),
            })
            &&& fault_error(primary_namespace, secondary_namespace, None, operation, fault) == (
            ErrorView {
                kind: ErrorKind::Other,
                message: Some("Failed to "@ + operation + " "@ + namespaces + ": "@ + reason),
            })
        }),
{
}

/// The file of a key lies in the directory of its secondary namespace, which lies in that of the
/// primary one, which lies in the data directory; an empty namespace has no directory of its own.
/// Each is called by its name.
pub proof fn law_files_are_called_by_their_names(
    primary_namespace: Seq<char>,
    secondary_namespace: Seq<char>,
    key: Seq<char>,
)
    ensures
        ({
            let primary = encode_utf8(primary_namespace);
            let secondary = encode_utf8(secondary_namespace);
            let name = encode_utf8(key);
            let path = dest_path(primary_namespace, secondary_namespace, Some(key));
            let dir = dest_path(primary_namespace, secondary_namespace, None);
            let unnamed = dest_path(primary_namespace, secondary_namespace, Some(seq![]));
            &&& dir == dest_dir_path(primary_namespace, secondary_namespace)
            &&& unnamed == dir
            &&& key.len() > 0 ==> if primary_namespace.len() == 0 && secondary_namespace.len() == 0 {
                path == seq![name] && dir == Seq::<Seq<u8>>::empty()
            } else if secondary_namespace.len() == 0 {
                path == seq![primary, name] && dir == seq![primary]
            } else if primary_namespace.len() == 0 {
                path == seq![secondary, name] && dir == seq![secondary]
            } else {
                path == seq![primary, secondary, name] && dir == seq![primary, secondary]
            }
        }),
{
    let primary = encode_utf8(primary_namespace);
    let secondary = encode_utf8(secondary_namespace);
    let name = encode_utf8(key);
    let path = dest_path(primary_namespace, secondary_namespace, Some(key));
    let dir = dest_path(primary_namespace, secondary_namespace, None);
    assert(dir =~= dest_dir_path(primary_namespace, secondary_namespace));
    assert(dest_path(primary_namespace, secondary_namespace, Some(seq![])) =~= dir);
    if key.len() == 0 {
    } else if primary_namespace.len() == 0 && secondary_namespace.len() == 0 {
        assert(path =~= seq![name]);
        assert(dir =~= Seq::<Seq<u8>>::empty());
    } else if secondary_namespace.len() == 0 {
        assert(path =~= seq![primary, name]);
        assert(dir =~= seq![primary]);
    } else if primary_namespace.len() == 0 {
        assert(path =~= seq![secondary, name]);
        assert(dir =~= seq![secondary]);
    } else {
        assert(path =~= seq![primary, secondary, name]);
        assert(dir =~= seq![primary, secondary]);
    }
}

/// The number that some decimal digits spell.
pub open spec fn number_of(digits: Seq<u8>) -> nat
    decreases digits.len(),
{
    if digits.len() == 0 {
        0
    } else {
        10 * number_of(digits.drop_last()) + (digits.last() - 48) as nat
    }
}

/// The digits of a number spell it, without a zero in front unless the number is zero.
pub proof fn law_digits_spell_the_number(number: nat)
    ensures
        number_of(decimal(number)) == number,
        forall|i: int|
            0 <= i < decimal(number).len() ==> 48 <= #[trigger] decimal(number)[i] <= 57,
        decimal(number).len() > 0,
        number > 0 ==> decimal(number)[0] != 48,
        number == 0 ==> decimal(number).len() == 1,
    decreases number,
{
    lemma_decimal_digits(number);
    if number < 10 {
        let digits = decimal(number);
        assert(digits.drop_last() =~= seq![]);
        assert(number_of(digits.drop_last()) == 0);
    } else {
        law_digits_spell_the_number(number / 10);
        assert(decimal(number).drop_last() =~= decimal(number / 10));
        assert(decimal(number)[0] == decimal(number / 10)[0]);
    }
}

/// An artifact of a file whose name holds no dot lies beside it and is called like it, with the
/// number and `tmp` or `trash` behind, each after a dot.
pub proof fn law_artifacts_are_called_after_their_file(
    dir: PathView,
    name: Seq<u8>,
    number: nat,
    digits: Seq<u8>,
)
    requires
        name.len() > 0,
        dotless(name),
        digits == decimal(number),
    ensures
        artifact_path(dir.push(name), number, Artifact::Temporary) == dir.push(
            name + seq![46u8] + digits + seq![46u8, 116u8, 109u8, 112u8],
        ),
        artifact_path(dir.push(name), number, Artifact::Trash) == dir.push(
            name + seq![46u8] + digits + seq![46u8, 116u8, 114u8, 97u8, 115u8, 104u8],
        ),
{
    lemma_dotless(name);
    let path = dir.push(name);
    assert(path.drop_last() =~= dir);
    assert(path.last() == name);
    assert(file_stem(name) == name);
    let front = name + seq![46u8] + digits;
    assert(front + seq![46u8] + seq![116u8, 109u8, 112u8] =~= front + seq![
        46u8,
        116u8,
        109u8,
        112u8,
    ]);
    assert(front + seq![46u8] + seq![116u8, 114u8, 97u8, 115u8, 104u8] =~= front + seq![
        46u8,
        116u8,
        114u8,
        97u8,
        115u8,
        104u8,
    ]);
}

} // verus!
