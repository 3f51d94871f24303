//! A Stream that is not text, carried the way T-SQL itself writes
//! binary: the `0x` literal, two digits a byte.
//!
//! A text column holds UTF-8 without a NUL and nothing else, so a Stream
//! that is anything else is inserted as the binary literal a varbinary
//! column reads as the bytes. Coming back, a value in that form is the
//! bytes again — which is how [`crate::column`] renders a varbinary
//! column, and what a text column that kept the literal answers too.
//! Text that happens to start with `0x` and run in hex is read as bytes;
//! that is the same ambiguity a T-SQL constant has, and no worse.

use vstd::prelude::*;
use vstd::utf8::*;

use crate::number;
use crate::text;

verus! {

/// True of bytes that can be one text column: UTF-8 without a NUL.
pub open spec fn is_text_bytes(bytes: Seq<u8>) -> bool {
    valid_utf8(bytes) && !decode_utf8(bytes).contains('\0')
}

/// `bytes` as two lower-case digits a byte.
pub open spec fn hex_digits(bytes: Seq<u8>) -> Seq<char> {
    Seq::new(2 * bytes.len(), |i: int| number::hex_byte(bytes[i / 2])[i % 2])
}

/// `bytes` as the binary literal: `0x` then two lower-case digits a byte.
pub open spec fn literal_of(bytes: Seq<u8>) -> Seq<char> {
    seq!['0', 'x'] + hex_digits(bytes)
}

/// The byte that two hexadecimal digits name.
pub open spec fn digit_pair(high: char, low: char) -> u8 {
    (16 * number::hex_value(high)->0 + number::hex_value(low)->0) as u8
}

/// True of `0x` or `0X` ahead of hexadecimal digits, two to a byte.
pub open spec fn is_literal(text: Seq<char>) -> bool {
    &&& text.len() >= 2
    &&& text[0] == '0'
    &&& text[1] == 'x' || text[1] == 'X'
    &&& text.len() % 2 == 0
    &&& forall|i: int| 2 <= i < text.len() ==> number::hex_value(#[trigger] text[i]) is Some
}

/// The bytes a binary literal names, or nothing when `text` is not one.
pub open spec fn literal_bytes(text: Seq<char>) -> Option<Seq<u8>> {
    if is_literal(text) {
        Some(
            Seq::new(
                ((text.len() - 2) / 2) as nat,
                |i: int| digit_pair(text[2 + 2 * i], text[3 + 2 * i]),
            ),
        )
    } else {
        None
    }
}

/// A column value as the bytes it carries: what a binary literal names, the
/// text's UTF-8 otherwise.
pub open spec fn value_bytes(text: Seq<char>) -> Seq<u8> {
    match literal_bytes(text) {
        Some(bytes) => bytes,
        None => encode_utf8(text),
    }
}

/// True when `bytes` can be one text column: UTF-8 without a NUL.
#[must_use]
pub fn is_text(bytes: &[u8]) -> (yes: bool)
    ensures
        yes == is_text_bytes(bytes@),
{
    let chars: Vec<char> = match text::utf8(bytes) {
        Some(text) => text::chars_of(text),
        None => return false,
    };
    let mut i: usize = 0;
    while i < chars.len()
        invariant
            i <= chars.len(),
            chars@ == decode_utf8(bytes@),
            forall|j: int| 0 <= j < i ==> chars@[j] != '\0',
        decreases chars.len() - i,
    {
        if chars[i] == '\0' {
            assert(chars@[i as int] == '\0');
            return false;
        }
        i = i + 1;
    }
    true
}

/// `bytes` as the binary literal: `0x` then two lower-case digits a byte.
#[must_use]
pub fn hex_literal(bytes: &[u8]) -> (literal: String)
    ensures
        literal@ == literal_of(bytes@),
{
    let mut out: String = String::new();
    out.push('0');
    out.push('x');
    let mut i: usize = 0;
    assert(out@ =~= literal_of(bytes@.take(0)));
    while i < bytes.len()
        invariant
            i <= bytes.len(),
            out@ == literal_of(bytes@.take(i as int)),
        decreases bytes.len() - i,
    {
        number::push_hex_byte(&mut out, bytes[i]);
        assert(out@ =~= literal_of(bytes@.take(i + 1)));
        i = i + 1;
    }
    assert(bytes@.take(i as int) =~= bytes@);
    out
}

/// The bytes a binary literal spelled in `text` names, or `None` when it is
/// not one.
pub(crate) fn from_literal(text: &[char]) -> (bytes: Option<Vec<u8>>)
    ensures
        match bytes {
            Some(bytes) => literal_bytes(text@) == Some(bytes@),
            None => literal_bytes(text@) is None,
        },
{
    if text.len() < 2 || text[0] != '0' || (text[1] != 'x' && text[1] != 'X') || text.len() % 2
        != 0 {
        return None;
    }
    let mut bytes: Vec<u8> = Vec::new();
    let mut i: usize = 2;
    while i < text.len()
        invariant
            2 <= i <= text.len(),
            text.len() % 2 == 0,
            i % 2 == 0,
            forall|j: int| 2 <= j < i ==> number::hex_value(#[trigger] text@[j]) is Some,
            bytes@.len() == (i - 2) / 2,
            forall|j: int|
                0 <= j < bytes@.len() ==> #[trigger] bytes@[j] == digit_pair(
                    text@[2 + 2 * j],
                    text@[3 + 2 * j],
                ),
        decreases text.len() - i,
    {
        let high: u8 = match number::read_hex_digit(text[i]) {
            Some(n) => n,
            None => {
                assert(number::hex_value(text@[i as int]) is None);
                return None
            },
        };
        let low: u8 = match number::read_hex_digit(text[i + 1]) {
            Some(n) => n,
            None => {
                assert(number::hex_value(text@[i + 1]) is None);
                return None
            },
        };
        bytes.push(16 * high + low);
        i = i + 2;
    }
    assert(bytes@ =~= literal_bytes(text@)->0);
    Some(bytes)
}

/// The bytes a binary literal names, or `None` when `text` is not one.
#[must_use]
pub fn from_hex_literal(text: &str) -> (bytes: Option<Vec<u8>>)
    ensures
        match bytes {
            Some(bytes) => literal_bytes(text@) == Some(bytes@),
            None => literal_bytes(text@) is None,
        },
{
    let chars: Vec<char> = text::chars_of(text);
    from_literal(chars.as_slice())
}

/// A column value as the bytes it carries: decoded when a binary literal,
/// the text's bytes otherwise.
#[must_use]
pub fn column_bytes(text: String) -> (bytes: Vec<u8>)
    ensures
        bytes@ == value_bytes(text@),
{
    match from_hex_literal(text.as_str()) {
        Some(bytes) => bytes,
        None => text::bytes_of(text.as_str()),
    }
}

/// Bytes written as the binary literal are the bytes again when it is read,
/// as a literal and as a column's value.
pub proof fn lemma_literal_reads_back(bytes: Seq<u8>)
    ensures
        literal_bytes(literal_of(bytes)) == Some(bytes),
        value_bytes(literal_of(bytes)) == bytes,
{
    let text = literal_of(bytes);
    assert forall|i: int| 2 <= i < text.len() implies number::hex_value(#[trigger] text[i]) is Some
        && number::hex_value(text[i])->0 == (if i % 2 == 0 {
        bytes[(i - 2) / 2] as int / 16
    } else {
        bytes[(i - 2) / 2] as int % 16
    }) by {
        let byte = bytes[(i - 2) / 2];
        number::lemma_hex_digit_reads_back(byte as int / 16);
        number::lemma_hex_digit_reads_back(byte as int % 16);
        assert(text[i] == number::hex_byte(byte)[(i - 2) % 2]);
    }
    assert(literal_bytes(text)->0 =~= bytes);
}

/// Text that is not a binary literal carries its own bytes, so text that
/// could be a text column comes back as the bytes it was made of.
pub proof fn lemma_text_reads_back(bytes: Seq<u8>)
    requires
        valid_utf8(bytes),
        !is_literal(decode_utf8(bytes)),
    ensures
        value_bytes(decode_utf8(bytes)) == bytes,
{
    decode_utf8_encode_utf8(bytes);
}

} // verus!
