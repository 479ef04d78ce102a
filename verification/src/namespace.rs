//! Which namespaces and keys are allowed.

use crate::error::{ErrorKind, ErrorView, StoreError};
use crate::text::{printable, printable_text};
use vstd::prelude::*;
use vstd::utf8::{encode_utf8, is_ascii_chars};

verus! {

/// The characters that a namespace or a key may hold.
pub open spec fn is_key_char(c: char) -> bool {
    ||| 'a' <= c <= 'z'
    ||| 'A' <= c <= 'Z'
    ||| '0' <= c <= '9'
    ||| c == '_'
    ||| c == '-'
}

/// The alphabet of namespaces and keys, the constant
/// [`lightning::util::persist::KVSTORE_NAMESPACE_KEY_ALPHABET`]: the ASCII letters and digits,
/// the underscore and the hyphen, and nothing else.
#[verifier::external_body]
fn key_alphabet() -> (alphabet: &'static str)
    ensures
        forall|c: char| #[trigger] alphabet@.contains(c) <==> is_key_char(c),
{
    lightning::util::persist::KVSTORE_NAMESPACE_KEY_ALPHABET
}

/// The longest namespace or key, the constant
/// [`lightning::util::persist::KVSTORE_NAMESPACE_KEY_MAX_LEN`].
#[verifier::external_body]
fn key_max_len() -> (max_len: usize)
    ensures
        max_len == 120,
{
    lightning::util::persist::KVSTORE_NAMESPACE_KEY_MAX_LEN
}

/// Whether a text may be a namespace or a key: at most 120 characters of the alphabet.
pub open spec fn valid_kvstore_str(text: Seq<char>) -> bool {
    &&& text.len() <= 120
    &&& forall|i: int| 0 <= i < text.len() ==> is_key_char(#[trigger] text[i])
}

/// Whether `alphabet` holds `c`.
fn contains_char(alphabet: &str, c: char) -> (found: bool)
    ensures
        found == alphabet@.contains(c),
{
    let mut found: bool = false;
    for x in it: alphabet.chars()
        invariant
            it.seq() == alphabet@,
            found <==> alphabet@.take(it.index()).contains(c),
    {
        proof {
            let i = it.index();
            assert(alphabet@.take(i + 1) =~= alphabet@.take(i).push(x));
            if found {
                let j = choose|j: int| 0 <= j < i && alphabet@.take(i)[j] == c;
                assert(alphabet@.take(i + 1)[j] == c);
            }
            if x == c {
                assert(alphabet@.take(i + 1)[i] == c);
            }
        }
        if x == c {
            found = true;
        }
    }
    assert(alphabet@.take(alphabet@.len() as int) =~= alphabet@);
    found
}

/// A valid text is ASCII, so it has one byte per character.
pub proof fn lemma_valid_is_ascii(text: Seq<char>)
    requires
        forall|i: int| 0 <= i < text.len() ==> is_key_char(#[trigger] text[i]),
    ensures
        is_ascii_chars(text),
        encode_utf8(text) == text.map_values(|c: char| c as u8),
{
    vstd::utf8::is_ascii_chars_encode_utf8(text);
    assert(encode_utf8(text) =~= text.map_values(|c: char| c as u8));
}

/// Whether `key` may be a namespace or a key.
pub fn is_valid_kvstore_str(key: &str) -> (valid: bool)
    ensures
        valid == valid_kvstore_str(key@),
{
    proof {
        if valid_kvstore_str(key@) {
            lemma_valid_is_ascii(key@);
        }
    }
    if key.as_bytes().len() > key_max_len() {
        return false;
    }
    let alphabet = key_alphabet();
    let mut valid: bool = true;
    for c in it: key.chars()
        invariant
            it.seq() == key@,
            forall|c: char| #[trigger] alphabet@.contains(c) <==> is_key_char(c),
            valid <==> forall|j: int| 0 <= j < it.index() ==> is_key_char(#[trigger] key@[j]),
    {
        valid = valid && contains_char(alphabet, c);
    }
    proof {
        if valid {
            lemma_valid_is_ascii(key@);
        }
    }
    valid
}

/// Why a namespace, or a namespace and a key, are refused.
pub enum NamespaceFault {
    /// The key is empty.
    EmptyKey,
    /// The primary namespace is empty and the secondary namespace is not.
    EmptyPrimaryNamespace,
    /// A text is too long or holds a character outside the alphabet.
    InvalidText,
}

/// What is wrong with the given namespaces and key, the first of the faults that applies.
pub open spec fn namespace_fault(
    primary_namespace: Seq<char>,
    secondary_namespace: Seq<char>,
    key: Option<Seq<char>>,
) -> Option<NamespaceFault> {
    if key is Some && key->0.len() == 0 {
        Some(NamespaceFault::EmptyKey)
    } else if primary_namespace.len() == 0 && secondary_namespace.len() != 0 {
        Some(NamespaceFault::EmptyPrimaryNamespace)
    } else if !valid_kvstore_str(primary_namespace) || !valid_kvstore_str(secondary_namespace) || (
    key is Some && !valid_kvstore_str(key->0)) {
        Some(NamespaceFault::InvalidText)
    } else {
        None
    }
}

/// The reason that the message of a refusal ends with.
pub open spec fn fault_reason(fault: NamespaceFault, has_key: bool) -> Seq<char> {
    match fault {
        NamespaceFault::EmptyKey => "key may not be empty."@,
        NamespaceFault::EmptyPrimaryNamespace => "primary namespace may not be empty if a non-empty secondary namespace is given."@,
        NamespaceFault::InvalidText => if has_key {
            "primary namespace, secondary namespace, and key must be valid."@
        } else {
            "primary namespace and secondary namespace must be valid."@
        },
    }
}

/// The error that a refusal is answered with.
pub open spec fn fault_error(
    primary_namespace: Seq<char>,
    secondary_namespace: Seq<char>,
    key: Option<Seq<char>>,
    operation: Seq<char>,
    fault: NamespaceFault,
) -> ErrorView {
    let namespaces = printable_text(primary_namespace) + "/"@ + printable_text(secondary_namespace);
    let place = match key {
        Some(key) => namespaces + "/"@ + printable_text(key),
        None => namespaces,
    };
    ErrorView {
        kind: ErrorKind::Other,
        message: Some(
            "Failed to "@ + operation + " "@ + place + ": "@ + fault_reason(fault, key is Some),
        ),
    }
}

/// What a key that may be missing says.
pub open spec fn key_view(key: Option<&str>) -> Option<Seq<char>> {
    match key {
        Some(key) => Some(key@),
        None => None,
    }
}

/// Builds the error of a refusal.
fn refusal(
    primary_namespace: &str,
    secondary_namespace: &str,
    key: Option<&str>,
    operation: &str,
    fault: NamespaceFault,
) -> (error: StoreError)
    ensures
        error@ == fault_error(
            primary_namespace@,
            secondary_namespace@,
            key_view(key),
            operation@,
            fault,
        ),
{
    let mut message = String::new();
    message.append("Failed to ");
    message.append(operation);
    message.append(" ");
    let mut place = printable(primary_namespace);
    place.append("/");
    place.append(printable(secondary_namespace).as_str());
    if let Some(key) = key {
        place.append("/");
        place.append(printable(key).as_str());
    }
    message.append(place.as_str());
    message.append(": ");
    match fault {
        NamespaceFault::EmptyKey => message.append("key may not be empty."),
        NamespaceFault::EmptyPrimaryNamespace => message.append(
            "primary namespace may not be empty if a non-empty secondary namespace is given.",
        ),
        NamespaceFault::InvalidText => {
            if key.is_some() {
                message.append("primary namespace, secondary namespace, and key must be valid.");
            } else {
                message.append("primary namespace and secondary namespace must be valid.");
            }
        },
    }
    let ghost expected = fault_error(
        primary_namespace@,
        secondary_namespace@,
        key_view(key),
        operation@,
        fault,
    ).message->0;
    assert(Seq::<char>::empty() + "Failed to "@ =~= "Failed to "@);
    assert(message@ =~= expected);
    StoreError::new(ErrorKind::Other, message)
}

/// Accepts namespaces, and a key where one is given, that the store can hold.
///
/// A key may not be empty, a secondary namespace needs a primary one, and all texts must be
/// valid. `operation` only names, in the error's message, what was about to be done.
pub fn check_namespace_key_validity(
    primary_namespace: &str,
    secondary_namespace: &str,
    key: Option<&str>,
    operation: &str,
) -> (result: Result<(), StoreError>)
    ensures
        match namespace_fault(primary_namespace@, secondary_namespace@, key_view(key)) {
            None => result is Ok,
            Some(fault) => result is Err && result->Err_0@ == fault_error(
                primary_namespace@,
                secondary_namespace@,
                key_view(key),
                operation@,
                fault,
            ),
        },
{
    let mut valid: bool = true;
    if let Some(key) = key {
        if key.is_empty() {
            return Err(
                refusal(
                    primary_namespace,
                    secondary_namespace,
                    Some(key),
                    operation,
                    NamespaceFault::EmptyKey,
                ),
            );
        }
        valid = is_valid_kvstore_str(key);
    }
    if primary_namespace.is_empty() && !secondary_namespace.is_empty() {
        return Err(
            refusal(
                primary_namespace,
                secondary_namespace,
                key,
                operation,
                NamespaceFault::EmptyPrimaryNamespace,
            ),
        );
    }
    if !valid || !is_valid_kvstore_str(primary_namespace) || !is_valid_kvstore_str(
        secondary_namespace,
    ) {
        return Err(
            refusal(
                primary_namespace,
                secondary_namespace,
                key,
                operation,
                NamespaceFault::InvalidText,
            ),
        );
    }
    Ok(())
}

} // verus!
