//! Bytes as literals: which are text, what a literal names and what a
//! column's value carries.

use vstd::prelude::*;
use vstd::utf8::*;

use crate::binary;
use crate::laws::numbers;
use crate::number;

verus! {

/// Bytes can be one text column if and only if they are UTF-8 without a NUL,
/// however many they are.
pub proof fn lemma_text_is_utf8_without_a_nul(bytes: Seq<u8>)
    ensures
        binary::is_text_bytes(bytes) <==> valid_utf8(bytes) && !decode_utf8(bytes).contains('\0'),
{
}

/// Any text without a NUL can be one text column, and none with one can.
pub proof fn lemma_text_without_a_nul_is_text(said: Seq<char>)
    ensures
        binary::is_text_bytes(encode_utf8(said)) <==> !said.contains('\0'),
{
    encode_utf8_valid_utf8(said);
    encode_utf8_decode_utf8(said);
}

/// A binary literal is `0x` and, of each byte in turn, its two digits.
pub proof fn lemma_a_literal_is_built_byte_by_byte(bytes: Seq<u8>, byte: u8)
    ensures
        binary::literal_of(Seq::empty()) == seq!['0', 'x'],
        binary::literal_of(bytes.push(byte)) == binary::literal_of(bytes) + seq![
            "0123456789abcdef"@[byte as int / 16],
            "0123456789abcdef"@[byte as int % 16],
        ],
        binary::literal_of(bytes).len() == 2 + 2 * bytes.len(),
{
    assert(binary::literal_of(Seq::empty()) =~= seq!['0', 'x']);
    numbers::lemma_a_byte_is_named(byte);
    let name = number::hex_name(byte);
    assert(name[2] == number::hex_byte(byte)[0]);
    assert(name[3] == number::hex_byte(byte)[1]);
    let more = bytes.push(byte);
    assert forall|i: int| 0 <= i < 2 * bytes.len() implies binary::hex_digits(more)[i]
        == binary::hex_digits(bytes)[i] by {
        assert(more[i / 2] == bytes[i / 2]);
    }
    assert(binary::literal_of(more) =~= binary::literal_of(bytes) + seq![
        "0123456789abcdef"@[byte as int / 16],
        "0123456789abcdef"@[byte as int % 16],
    ]);
}

/// A literal is read byte by byte, in whatever case its digits and its `x`
/// are: two digits more are one byte more, whatever their number.
pub proof fn lemma_a_literal_is_read_byte_by_byte(
    text: Seq<char>,
    bytes: Seq<u8>,
    x: char,
    high: char,
    low: char,
    n: int,
    m: int,
)
    requires
        x == 'x' || x == 'X',
        binary::literal_bytes(text) == Some(bytes),
        0 <= n < 16,
        0 <= m < 16,
        high == "0123456789abcdef"@[n] || high == "0123456789ABCDEF"@[n],
        low == "0123456789abcdef"@[m] || low == "0123456789ABCDEF"@[m],
    ensures
        binary::literal_bytes(seq!['0', x]) == Some(Seq::<u8>::empty()),
        binary::literal_bytes(text + seq![high, low]) == Some(bytes.push((16 * n + m) as u8)),
{
    numbers::lemma_hexadecimal_digits(high, n);
    numbers::lemma_hexadecimal_digits(low, m);
    assert(binary::literal_bytes(seq!['0', x])->0 =~= Seq::<u8>::empty());
    let more = text + seq![high, low];
    assert forall|i: int| 2 <= i < more.len() implies number::hex_value(
        #[trigger] more[i],
    ) is Some by {
        if i < text.len() {
            assert(more[i] == text[i]);
        }
    }
    assert(more[0] == text[0] && more[1] == text[1]);
    assert(binary::is_literal(more));
    let told = binary::literal_bytes(more)->0;
    assert forall|i: int| 0 <= i < bytes.len() implies told[i] == bytes[i] by {
        assert(more[2 + 2 * i] == text[2 + 2 * i]);
        assert(more[3 + 2 * i] == text[3 + 2 * i]);
    }
    assert(told =~= bytes.push((16 * n + m) as u8));
}

/// What is no literal names nothing: what does not begin with `0x`, what has
/// a digit too many, and what holds a character that is no digit.
pub proof fn lemma_anything_else_is_no_literal(text: Seq<char>, i: int)
    requires
        ({
            ||| text.len() < 2
            ||| text[0] != '0'
            ||| text[1] != 'x' && text[1] != 'X'
            ||| text.len() % 2 == 1
            ||| 2 <= i < text.len() && !('0' <= text[i] <= '9') && !('a' <= text[i] <= 'f') && !('A'
                <= text[i] <= 'F')
        }),
    ensures
        binary::literal_bytes(text) is None,
        binary::value_bytes(text) == encode_utf8(text),
{
    if 2 <= i < text.len() {
        assert(number::hex_value(text[i]) is None || ('0' <= text[i] <= '9') || ('a' <= text[i]
            <= 'f') || ('A' <= text[i] <= 'F'));
    }
}

/// A column's value carries the bytes that it names as a literal.
pub proof fn lemma_a_value_that_names_bytes_carries_them(text: Seq<char>, bytes: Seq<u8>)
    requires
        binary::literal_bytes(text) == Some(bytes),
    ensures
        binary::value_bytes(text) == bytes,
{
}

/// A column's value carries the bytes of its text, unless it begins with
/// `0x`, whatever the text and however long it is.
pub proof fn lemma_a_value_carries_its_text(text: Seq<char>)
    requires
        text.len() < 2 || text[0] != '0' || (text[1] != 'x' && text[1] != 'X'),
    ensures
        binary::value_bytes(text) == encode_utf8(text),
{
}

} // verus!
