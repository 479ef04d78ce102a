//! Text that goes into messages and file names.

use lightning::types::string::PrintableString;
use vstd::prelude::*;
use vstd::utf8::{encode_utf8, valid_utf8};

verus! {

/// The text that `PrintableString` displays for a string: the same text, with every character
/// that is not printable replaced.
pub uninterp spec fn printable_text(text: Seq<char>) -> Seq<char>;

/// Displays `text` through [`lightning::types::string::PrintableString`].
///
/// Which characters count as printable is a matter of Unicode tables, so the result is only
/// named. It keeps the number of characters, a character differs only where it became U+FFFD, and
/// the printable characters of ASCII stay as they are.
#[verifier::external_body]
pub(crate) fn printable(text: &str) -> (shown: String)
    ensures
        shown@ == printable_text(text@),
        shown@.len() == text@.len(),
        forall|i: int|
            0 <= i < shown@.len() ==> #[trigger] shown@[i] == text@[i] || shown@[i] == '\u{FFFD}',
        forall|i: int|
            0 <= i < shown@.len() && ' ' <= text@[i] <= '~' ==> #[trigger] shown@[i] == text@[i],
{
    format!("{}", PrintableString(text))
}

/// Reads `bytes` as text through [`String::from_utf8`]: there is a text exactly if the bytes are
/// valid UTF-8, and the bytes are then the encoding of that text.
#[verifier::external_body]
pub(crate) fn text_of_bytes(bytes: Vec<u8>) -> (text: Option<String>)
    ensures
        text is Some <==> valid_utf8(bytes@),
        text is Some ==> encode_utf8(text->0@) == bytes@,
{
    String::from_utf8(bytes).ok()
}

/// The decimal digits of `number`, without leading zeros.
pub open spec fn decimal(number: nat) -> Seq<u8>
    decreases number,
{
    if number < 10 {
        seq![(48 + number) as u8]
    } else {
        decimal(number / 10).push((48 + number % 10) as u8)
    }
}

/// Appends the decimal digits of `number` to `out`.
pub(crate) fn push_decimal(out: &mut Vec<u8>, number: usize)
    ensures
        final(out)@ == old(out)@ + decimal(number as nat),
    decreases number,
{
    if number >= 10 {
        push_decimal(out, number / 10);
    }
    out.push(48 + (number % 10) as u8);
    assert(out@ =~= old(out)@ + decimal(number as nat));
}

/// Appends `tail` to `out`.
pub(crate) fn push_bytes(out: &mut Vec<u8>, tail: &[u8])
    ensures
        final(out)@ == old(out)@ + tail@,
{
    let mut i: usize = 0;
    while i < tail.len()
        invariant
            i <= tail@.len(),
            out@ == old(out)@ + tail@.take(i as int),
        decreases tail@.len() - i,
    {
        out.push(tail[i]);
        i += 1;
        assert(tail@.take(i as int) =~= tail@.take(i - 1).push(tail@[i - 1]));
    }
    assert(tail@.take(i as int) =~= tail@);
}

/// Whether two byte strings are the same.
pub(crate) fn same_bytes(a: &[u8], b: &[u8]) -> (same: bool)
    ensures
        same == (a@ == b@),
{
    if a.len() != b.len() {
        return false;
    }
    let mut i: usize = 0;
    while i < a.len()
        invariant
            i <= a@.len(),
            a@.len() == b@.len(),
            forall|j: int| 0 <= j < i ==> a@[j] == b@[j],
        decreases a@.len() - i,
    {
        if a[i] != b[i] {
            return false;
        }
        i += 1;
    }
    assert(a@ =~= b@);
    true
}

/// A copy of a byte string.
pub(crate) fn copy_bytes(bytes: &[u8]) -> (copy: Vec<u8>)
    ensures
        copy@ == bytes@,
{
    let mut copy: Vec<u8> = Vec::new();
    push_bytes(&mut copy, bytes);
    assert(copy@ =~= bytes@);
    copy
}

/// Every digit of a decimal number is an ASCII digit.
pub proof fn lemma_decimal_digits(number: nat)
    ensures
        decimal(number).len() >= 1,
        forall|i: int|
            0 <= i < decimal(number).len() ==> 48 <= #[trigger] decimal(number)[i] <= 57,
    decreases number,
{
    if number >= 10 {
        lemma_decimal_digits(number / 10);
    }
}

/// Different numbers have different digits.
pub proof fn lemma_decimal_injective(a: nat, b: nat)
    requires
        decimal(a) == decimal(b),
    ensures
        a == b,
    decreases a,
{
    lemma_decimal_digits(a / 10);
    lemma_decimal_digits(b / 10);
    if a < 10 {
        assert(decimal(a).len() == 1);
        assert(b < 10);
        assert(decimal(a)[0] == (48 + a) as u8);
        assert(decimal(b)[0] == (48 + b) as u8);
    } else {
        assert(decimal(a).len() >= 2);
        assert(b >= 10);
        assert(decimal(a).drop_last() =~= decimal(a / 10));
        assert(decimal(b).drop_last() =~= decimal(b / 10));
        assert(decimal(a).last() == (48 + a % 10) as u8);
        assert(decimal(b).last() == (48 + b % 10) as u8);
        lemma_decimal_injective(a / 10, b / 10);
    }
}

} // verus!
