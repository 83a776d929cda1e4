//! Bytes and text: the case of ASCII letters, spans of a buffer that hold
//! UTF-8, and decimal numbers.

use vstd::prelude::*;
use vstd::slice::slice_subrange;
use vstd::string::StringSliceAdditionalSpecFns;
use vstd::string::is_ascii;
use vstd::string::is_ascii_spec_bytes;
use vstd::utf8::{decode_utf8, encode_utf8_decode_utf8, valid_utf8};
use crate::http::parser::{Slice, span_of, within};

verus! {

/// The bytes of a text of ASCII characters.
pub open spec fn ascii(chars: Seq<char>) -> Seq<u8> {
    chars.map_values(|c: char| c as u8)
}

/// An upper-case ASCII letter folded to lower case; any other byte as it is.
pub open spec fn lower(byte: u8) -> u8 {
    if 0x41 <= byte <= 0x5a {
        (byte + 0x20) as u8
    } else {
        byte
    }
}

/// The bytes with every upper-case ASCII letter folded to lower case.
pub open spec fn folded(bytes: Seq<u8>) -> Seq<u8> {
    bytes.map_values(|byte: u8| lower(byte))
}

/// Whether two byte strings are equal but for the case of ASCII letters.
pub open spec fn same_ignoring_case(left: Seq<u8>, right: Seq<u8>) -> bool {
    folded(left) == folded(right)
}

/// Folds an upper-case ASCII letter to lower case.
pub fn to_lower(v: u8) -> (folded: u8)
    ensures
        folded == lower(v),
{
    if 0x41 <= v && v <= 0x5a {
        v + 0x20
    } else {
        v
    }
}

/// Whether two byte strings are equal but for the case of ASCII letters.
pub fn eq_ignoring_case(left: &[u8], right: &[u8]) -> (same: bool)
    ensures
        same == same_ignoring_case(left@, right@),
{
    if left.len() != right.len() {
        assert(folded(left@).len() != folded(right@).len());
        return false;
    }
    let mut at: usize = 0;
    while at < left.len()
        invariant
            at <= left@.len(),
            left@.len() == right@.len(),
            forall|j: int| 0 <= j < at ==> lower(left@[j]) == lower(right@[j]),
        decreases left@.len() - at,
    {
        if to_lower(left[at]) != to_lower(right[at]) {
            assert(folded(left@)[at as int] != folded(right@)[at as int]);
            return false;
        }
        at = at + 1;
    }
    assert(folded(left@) =~= folded(right@));
    true
}

/// The index of the first member of `in_set` that equals `to_find` but for
/// the case of ASCII letters; `None` where there is none.
pub fn which_of(to_find: &[u8], in_set: &[&[u8]]) -> (found: Option<usize>)
    ensures
        match found {
            Some(at) => {
                &&& at < in_set@.len()
                &&& same_ignoring_case(in_set@[at as int]@, to_find@)
                &&& forall|j: int| 0 <= j < at ==> !same_ignoring_case(in_set@[j]@, to_find@)
            },
            None => forall|j: int|
                0 <= j < in_set@.len() ==> !same_ignoring_case(in_set@[j]@, to_find@),
        },
{
    let mut at: usize = 0;
    while at < in_set.len()
        invariant
            at <= in_set@.len(),
            forall|j: int| 0 <= j < at ==> !same_ignoring_case(in_set@[j]@, to_find@),
        decreases in_set@.len() - at,
    {
        if eq_ignoring_case(in_set[at], to_find) {
            return Some(at);
        }
        at = at + 1;
    }
    None
}

/// The bytes of a text that holds ASCII characters only.
pub fn ascii_bytes(text: &'static str) -> (bytes: &'static [u8])
    requires
        is_ascii(text),
    ensures
        bytes@ == ascii(text@),
{
    proof {
        is_ascii_spec_bytes(text);
        assert(text.spec_bytes() =~= ascii(text@));
    }
    text.as_bytes()
}

/// Whether a span of the bytes lies inside them and holds well-formed UTF-8.
pub open spec fn is_text(bytes: Seq<u8>, span: Slice) -> bool {
    within(span, bytes.len()) && valid_utf8(span_of(bytes, span@))
}

/// The text that a span of the bytes holds.
pub open spec fn text(bytes: Seq<u8>, span: Slice) -> Seq<char> {
    decode_utf8(span_of(bytes, span@))
}

/// `std::str::from_utf8`: the string slice over `bytes`, where they are
/// well-formed UTF-8, and `None` where they are not. The slice has the same
/// bytes.
#[verifier::external_body]
fn text_of<'a>(bytes: &'a [u8]) -> (text: Option<&'a str>)
    ensures
        text is Some <==> valid_utf8(bytes@),
        text matches Some(text) ==> text.spec_bytes() == bytes@,
{
    std::str::from_utf8(bytes).ok()
}

/// Whether a span of the buffer holds text.
pub fn span_is_text(buffer: &[u8], span: Slice) -> (readable: bool)
    ensures
        readable == is_text(buffer@, span),
{
    if span.0 <= span.1 && span.1 <= buffer.len() {
        text_of(slice_subrange(buffer, span.0, span.1)).is_some()
    } else {
        false
    }
}

/// The text in a span of the buffer.
pub fn span_text<'a>(buffer: &'a [u8], span: Slice) -> (found: &'a str)
    requires
        is_text(buffer@, span),
    ensures
        found@ == text(buffer@, span),
        found.spec_bytes() == span_of(buffer@, span@),
{
    match text_of(slice_subrange(buffer, span.0, span.1)) {
        Some(found) => {
            proof {
                encode_utf8_decode_utf8(found@);
            }
            found
        },
        None => unreached(),
    }
}

/// Whether two byte strings are the same.
pub fn same_bytes(left: &[u8], right: &[u8]) -> (same: bool)
    ensures
        same == (left@ == right@),
{
    if left.len() != right.len() {
        return false;
    }
    let mut at: usize = 0;
    while at < left.len()
        invariant
            at <= left@.len(),
            left@.len() == right@.len(),
            forall|j: int| 0 <= j < at ==> left@[j] == right@[j],
        decreases left@.len() - at,
    {
        if left[at] != right[at] {
            return false;
        }
        at = at + 1;
    }
    assert(left@ =~= right@);
    true
}

/// Whether a byte is a decimal digit.
pub open spec fn is_digit(byte: u8) -> bool {
    0x30 <= byte <= 0x39
}

/// The number that a string of decimal digits writes.
pub open spec fn decimal(digits: Seq<u8>) -> nat
    decreases digits.len(),
{
    if digits.len() == 0 {
        0
    } else {
        decimal(digits.drop_last()) * 10 + (digits.last() - 0x30) as nat
    }
}

/// The digits of a number that may have a plus sign before it.
pub open spec fn unsigned(bytes: Seq<u8>) -> Seq<u8> {
    if bytes.len() > 0 && bytes[0] == 0x2b {
        bytes.skip(1)
    } else {
        bytes
    }
}

/// The status code that the bytes write: decimal digits, at least one,
/// after an optional plus sign, for a number that fits a `usize`.
pub open spec fn status_code_of(bytes: Seq<u8>) -> Option<usize> {
    let digits = unsigned(bytes);
    if digits.len() > 0 && (forall|i: int| 0 <= i < digits.len() ==> is_digit(#[trigger] digits[i]))
        && decimal(digits) <= usize::MAX {
        Some(decimal(digits) as usize)
    } else {
        None
    }
}

/// A string of digits writes a number no smaller than any of its prefixes.
proof fn lemma_decimal_grows(digits: Seq<u8>, upto: int)
    requires
        0 <= upto <= digits.len(),
        forall|i: int| 0 <= i < digits.len() ==> is_digit(#[trigger] digits[i]),
    ensures
        decimal(digits.take(upto)) <= decimal(digits),
    decreases digits.len() - upto,
{
    if upto < digits.len() {
        let longer = digits.take(upto + 1);
        assert(longer.drop_last() =~= digits.take(upto));
        assert(is_digit(digits[upto]));
        assert(longer.last() == digits[upto]);
        lemma_decimal_grows(digits, upto + 1);
    } else {
        assert(digits.take(upto) =~= digits);
    }
}

/// Reads a status code.
pub fn parse_status_code(bytes: &[u8]) -> (code: Option<usize>)
    ensures
        code == status_code_of(bytes@),
{
    let start: usize = if bytes.len() > 0 && bytes[0] == 0x2b {
        1
    } else {
        0
    };
    let digits = slice_subrange(bytes, start, bytes.len());
    if digits.len() == 0 {
        return None;
    }
    let mut value: usize = 0;
    let mut at: usize = 0;
    while at < digits.len()
        invariant
            at <= digits@.len(),
            digits@ == unsigned(bytes@),
            forall|i: int| 0 <= i < at ==> is_digit(#[trigger] digits@[i]),
            value == decimal(digits@.take(at as int)),
        decreases digits@.len() - at,
    {
        let byte = digits[at];
        if byte < 0x30 || byte > 0x39 {
            return None;
        }
        let digit: usize = (byte - 0x30) as usize;
        proof {
            assert(digits@.take(at + 1).drop_last() =~= digits@.take(at as int));
            assert(digits@.take(at + 1).last() == byte);
        }
        if value > (usize::MAX - digit) / 10 {
            proof {
                assert(decimal(digits@.take(at + 1)) > usize::MAX);
                if forall|i: int| 0 <= i < digits@.len() ==> is_digit(#[trigger] digits@[i]) {
                    lemma_decimal_grows(digits@, at + 1);
                }
            }
            return None;
        }
        value = value * 10 + digit;
        at = at + 1;
    }
    proof {
        assert(digits@.take(at as int) =~= digits@);
    }
    Some(value)
}

} // verus!
