//! Text as the wire has it: UTF-16 in little-endian units, UTF-8 in bytes,
//! and the characters both are made of.

use vstd::prelude::*;
use vstd::slice::slice_subrange;
use vstd::utf8::*;

verus! {

/// `String::push` appends the one character it is given.
pub assume_specification[ String::push ](s: &mut String, c: char)
    ensures
        final(s)@ == old(s)@.push(c),
;

/// `char::from_u32` gives the character of every scalar value, and nothing
/// for a surrogate or a number past the last plane.
pub assume_specification[ char::from_u32 ](i: u32) -> (c: Option<char>)
    ensures
        c == (if is_scalar(i) {
            Some(i as char)
        } else {
            None
        }),
;

/// What `String::from_utf8_lossy` makes of bytes that are not UTF-8: each
/// stretch that is not becomes U+FFFD.
pub uninterp spec fn patched_utf8(bytes: Seq<u8>) -> Seq<char>;

/// UTF-8 `bytes` as text, lossily.
pub open spec fn utf8_lossy(bytes: Seq<u8>) -> Seq<char> {
    if valid_utf8(bytes) {
        decode_utf8(bytes)
    } else {
        patched_utf8(bytes)
    }
}

/// Calls `String::from_utf8_lossy`. Bytes that are UTF-8 come back as the
/// text they are; how other bytes are cut into replacement characters is
/// the name's to say.
#[verifier::external_body]
pub(crate) fn lossy_utf8(bytes: &[u8]) -> (text: String)
    ensures
        text@ == (if valid_utf8(bytes@) {
            decode_utf8(bytes@)
        } else {
            patched_utf8(bytes@)
        }),
{
    String::from_utf8_lossy(bytes).into_owned()
}

/// Calls `str::from_utf8`: the text of bytes that are UTF-8, and nothing
/// where they are not.
#[verifier::external_body]
pub(crate) fn utf8(bytes: &[u8]) -> (text: Option<&str>)
    ensures
        text is Some <==> valid_utf8(bytes@),
        text matches Some(t) ==> t@ == decode_utf8(bytes@),
{
    std::str::from_utf8(bytes).ok()
}

/// The characters of `text`.
pub fn chars_of(text: &str) -> (chars: Vec<char>)
    ensures
        chars@ == text@,
{
    let mut chars: Vec<char> = Vec::new();
    for c in it: text.chars()
        invariant
            chars@ == it.seq().take(it.index() as int),
            it.seq() == text@,
    {
        chars.push(c);
    }
    chars
}

/// The text that `chars` spell.
pub fn text_of(chars: &[char]) -> (text: String)
    ensures
        text@ == chars@,
{
    let mut text: String = String::new();
    let mut i: usize = 0;
    while i < chars.len()
        invariant
            i <= chars.len(),
            text@ == chars@.take(i as int),
        decreases chars.len() - i,
    {
        text.push(chars[i]);
        i = i + 1;
    }
    text
}

/// True when `chars` spell `word`.
pub fn spells(chars: &[char], word: &str) -> (yes: bool)
    ensures
        yes == (chars@ == word@),
{
    text_of(chars) == word.to_owned()
}

/// The UTF-8 bytes of `text`.
pub fn bytes_of(text: &str) -> (bytes: Vec<u8>)
    ensures
        bytes@ == encode_utf8(text@),
{
    vstd::slice::slice_to_vec(text.as_bytes())
}

/// The UTF-8 bytes of a character that is not NUL hold no zero.
proof fn lemma_scalar_bytes_hold_no_zero(c: char)
    requires
        c != '\0',
    ensures
        forall|i: int|
            0 <= i < encode_scalar(c as u32).len() ==> #[trigger] encode_scalar(c as u32)[i] != 0,
{
    let n = c as u32;
    assert(0 < n <= 0x7F ==> (n & 0x7F) as u8 != 0) by (bit_vector);
    assert(forall|x: u8| #[trigger] (0xC0u8 | x) != 0) by (bit_vector);
    assert(forall|x: u8| #[trigger] (0xE0u8 | x) != 0) by (bit_vector);
    assert(forall|x: u8| #[trigger] (0xF0u8 | x) != 0) by (bit_vector);
    assert(forall|x: u8| #[trigger] (0x80u8 | x) != 0) by (bit_vector);
}

/// The UTF-8 of text without a NUL holds no zero byte.
pub proof fn lemma_utf8_holds_no_zero(text: Seq<char>)
    requires
        !text.contains('\0'),
    ensures
        forall|i: int| 0 <= i < encode_utf8(text).len() ==> #[trigger] encode_utf8(text)[i] != 0,
    decreases text.len(),
{
    if text.len() > 0 {
        assert(text[0] != '\0');
        assert forall|i: int| 0 <= i < text.drop_first().len() implies text.drop_first()[i]
            != '\0' by {
            assert(text.drop_first()[i] == text[i + 1]);
        }
        lemma_scalar_bytes_hold_no_zero(text[0]);
        lemma_utf8_holds_no_zero(text.drop_first());
        let head = encode_scalar(text[0] as u32);
        let tail = encode_utf8(text.drop_first());
        assert forall|i: int| 0 <= i < encode_utf8(text).len() implies #[trigger] encode_utf8(
            text,
        )[i] != 0 by {
            if i < head.len() {
                assert(encode_utf8(text)[i] == head[i]);
            } else {
                assert(encode_utf8(text)[i] == tail[i - head.len()]);
            }
        }
    }
}

/// One character in UTF-16: a unit, or a surrogate pair past U+FFFF.
pub open spec fn utf16_units(c: char) -> Seq<u16> {
    if (c as u32) < 0x10000 {
        seq![c as u16]
    } else {
        seq![
            (0xD800 + ((c as u32) - 0x10000) / 0x400) as u16,
            (0xDC00 + ((c as u32) - 0x10000) % 0x400) as u16,
        ]
    }
}

/// `text` in UTF-16.
pub open spec fn utf16(text: Seq<char>) -> Seq<u16>
    decreases text.len(),
{
    if text.len() == 0 {
        Seq::empty()
    } else {
        utf16_units(text[0]) + utf16(text.drop_first())
    }
}

/// The first unit of a surrogate pair.
pub open spec fn is_high_surrogate(unit: u16) -> bool {
    0xD800 <= unit <= 0xDBFF
}

/// The second unit of a surrogate pair.
pub open spec fn is_low_surrogate(unit: u16) -> bool {
    0xDC00 <= unit <= 0xDFFF
}

/// The character a surrogate pair spells.
pub open spec fn paired(high: u16, low: u16) -> char {
    (0x10000 + (high - 0xD800) * 0x400 + (low - 0xDC00)) as char
}

/// The text that UTF-16 `units` spell, a surrogate without its other half
/// read as U+FFFD.
pub open spec fn utf16_lossy(units: Seq<u16>) -> Seq<char>
    decreases units.len(),
{
    if units.len() == 0 {
        Seq::empty()
    } else if !is_high_surrogate(units[0]) && !is_low_surrogate(units[0]) {
        seq![units[0] as char] + utf16_lossy(units.skip(1))
    } else if is_high_surrogate(units[0]) && units.len() > 1 && is_low_surrogate(units[1]) {
        seq![paired(units[0], units[1])] + utf16_lossy(units.skip(2))
    } else {
        seq!['\u{FFFD}'] + utf16_lossy(units.skip(1))
    }
}

/// Appends `c` in UTF-16.
fn push_utf16(units: &mut Vec<u16>, c: char)
    ensures
        final(units)@ == old(units)@ + utf16_units(c),
{
    let n: u32 = c as u32;
    if n < 0x10000 {
        units.push(n as u16);
    } else {
        units.push((0xD800 + (n - 0x10000) / 0x400) as u16);
        units.push((0xDC00 + (n - 0x10000) % 0x400) as u16);
    }
    assert(units@ =~= old(units)@ + utf16_units(c));
}

/// `text` in UTF-16.
pub fn encode_utf16(text: &str) -> (units: Vec<u16>)
    ensures
        units@ == utf16(text@),
{
    let chars: Vec<char> = chars_of(text);
    let mut units: Vec<u16> = Vec::new();
    let mut i: usize = 0;
    proof {
        assert(text@.skip(0) =~= text@);
        assert(units@ + utf16(text@) =~= utf16(text@));
    }
    while i < chars.len()
        invariant
            chars@ == text@,
            i <= chars.len(),
            units@ + utf16(text@.skip(i as int)) == utf16(text@),
        decreases chars.len() - i,
    {
        let ghost before = units@;
        let ghost rest = text@.skip(i as int);
        let c: char = chars[i];
        push_utf16(&mut units, c);
        proof {
            assert(rest.drop_first() =~= text@.skip(i + 1));
            assert(units@ + utf16(rest.drop_first()) =~= before + (utf16_units(c) + utf16(
                rest.drop_first(),
            )));
        }
        i = i + 1;
    }
    proof {
        assert(text@.skip(text@.len() as int) =~= Seq::empty());
        assert(units@ + Seq::<u16>::empty() =~= units@);
    }
    units
}

/// The text that UTF-16 `units` spell, a surrogate without its other half
/// read as U+FFFD.
pub fn decode_utf16_lossy(units: &[u16]) -> (text: String)
    ensures
        text@ == utf16_lossy(units@),
{
    let mut text: String = String::new();
    let mut i: usize = 0;
    proof {
        assert(units@.skip(0) =~= units@);
        assert(text@ + utf16_lossy(units@) =~= utf16_lossy(units@));
    }
    while i < units.len()
        invariant
            i <= units.len(),
            text@ + utf16_lossy(units@.skip(i as int)) == utf16_lossy(units@),
        decreases units.len() - i,
    {
        let ghost before = text@;
        let ghost rest = units@.skip(i as int);
        let unit: u16 = units[i];
        let mut taken: usize = 1;
        let mut c: char = '\u{FFFD}';
        if unit < 0xD800 || unit > 0xDFFF {
            c = char::from_u32(unit as u32).unwrap();
        } else if unit <= 0xDBFF && i + 1 < units.len() && units[i + 1] >= 0xDC00 && units[i + 1]
            <= 0xDFFF {
            let n: u32 = 0x10000 + (unit as u32 - 0xD800) * 0x400 + (units[i + 1] as u32 - 0xDC00);
            c = char::from_u32(n).unwrap();
            taken = 2;
        }
        text.push(c);
        proof {
            assert(rest.skip(taken as int) =~= units@.skip(i + taken));
            assert(utf16_lossy(rest) == seq![c] + utf16_lossy(rest.skip(taken as int)));
            assert(text@ + utf16_lossy(rest.skip(taken as int)) =~= before + (seq![c]
                + utf16_lossy(rest.skip(taken as int))));
        }
        i = i + taken;
    }
    proof {
        assert(units@.skip(units@.len() as int) =~= Seq::empty());
        assert(text@ + Seq::<char>::empty() =~= text@);
    }
    text
}

/// One character's units, read back ahead of anything, are the character.
proof fn lemma_utf16_units_read_back(c: char, rest: Seq<u16>)
    ensures
        utf16_lossy(utf16_units(c) + rest) == seq![c] + utf16_lossy(rest),
{
    let units = utf16_units(c) + rest;
    char_is_scalar(c);
    if (c as u32) < 0x10000 {
        assert(units.skip(1) =~= rest);
    } else {
        let over = (c as u32) - 0x10000;
        assert(units.skip(2) =~= rest);
        assert(over == 0x400 * (over / 0x400) + over % 0x400);
    }
}

/// Text written in UTF-16 reads back as itself.
pub proof fn lemma_utf16_reads_back(text: Seq<char>)
    ensures
        utf16_lossy(utf16(text)) == text,
    decreases text.len(),
{
    if text.len() > 0 {
        lemma_utf16_reads_back(text.drop_first());
        lemma_utf16_units_read_back(text[0], utf16(text.drop_first()));
        assert(seq![text[0]] + text.drop_first() =~= text);
    }
}

/// Text that units spell, lossily, takes as many units as there were.
pub proof fn lemma_lossy_units_are_as_many(units: Seq<u16>)
    ensures
        utf16(utf16_lossy(units)).len() == units.len(),
    decreases units.len(),
{
    if units.len() > 0 {
        let spelled = utf16_lossy(units);
        let pair = is_high_surrogate(units[0]) && units.len() > 1 && is_low_surrogate(units[1]);
        let rest = if pair {
            units.skip(2)
        } else {
            units.skip(1)
        };
        lemma_lossy_units_are_as_many(rest);
        assert(spelled.drop_first() =~= utf16_lossy(rest));
    }
}

/// The bytes of UTF-16 `units`, the low byte of each first.
pub open spec fn unit_bytes(units: Seq<u16>) -> Seq<u8> {
    Seq::new(
        2 * units.len(),
        |i: int|
            if i % 2 == 0 {
                (units[i / 2] % 256) as u8
            } else {
                (units[i / 2] / 256) as u8
            },
    )
}

/// The UTF-16 units that `bytes` hold, the low byte of each first; an odd
/// byte at the end belongs to none.
pub open spec fn byte_units(bytes: Seq<u8>) -> Seq<u16> {
    Seq::new(bytes.len() / 2, |i: int| (bytes[2 * i] + 256 * bytes[2 * i + 1]) as u16)
}

/// Units written as bytes read back as themselves.
pub proof fn lemma_unit_bytes_read_back(units: Seq<u16>)
    ensures
        byte_units(unit_bytes(units)) == units,
{
    assert(byte_units(unit_bytes(units)) =~= units);
}

/// True of the characters with Unicode's `White_Space` property.
pub open spec fn is_space(c: char) -> bool {
    ||| '\u{9}' <= c <= '\u{D}'
    ||| c == ' '
    ||| c == '\u{85}'
    ||| c == '\u{A0}'
    ||| c == '\u{1680}'
    ||| '\u{2000}' <= c <= '\u{200A}'
    ||| c == '\u{2028}'
    ||| c == '\u{2029}'
    ||| c == '\u{202F}'
    ||| c == '\u{205F}'
    ||| c == '\u{3000}'
}

/// True of the characters with Unicode's `White_Space` property.
fn space(c: char) -> (yes: bool)
    ensures
        yes == is_space(c),
{
    ('\u{9}' <= c && c <= '\u{D}') || c == ' ' || c == '\u{85}' || c == '\u{A0}' || c == '\u{1680}'
        || ('\u{2000}' <= c && c <= '\u{200A}') || c == '\u{2028}' || c == '\u{2029}' || c
        == '\u{202F}' || c == '\u{205F}' || c == '\u{3000}'
}

/// `text` from its first character that is not white space.
pub open spec fn left_trimmed(text: Seq<char>) -> Seq<char>
    decreases text.len(),
{
    if text.len() > 0 && is_space(text[0]) {
        left_trimmed(text.skip(1))
    } else {
        text
    }
}

/// `text` up to its last character that is not white space.
pub open spec fn right_trimmed(text: Seq<char>) -> Seq<char>
    decreases text.len(),
{
    if text.len() > 0 && is_space(text.last()) {
        right_trimmed(text.drop_last())
    } else {
        text
    }
}

/// `text` without white space at either end.
pub open spec fn trimmed(text: Seq<char>) -> Seq<char> {
    right_trimmed(left_trimmed(text))
}

/// `text` from its first character that is not white space.
pub fn trim_left(text: &[char]) -> (rest: &[char])
    ensures
        rest@ == left_trimmed(text@),
{
    let mut i: usize = 0;
    assert(text@.skip(0) =~= text@);
    while i < text.len() && space(text[i])
        invariant
            i <= text.len(),
            left_trimmed(text@.skip(i as int)) == left_trimmed(text@),
        decreases text.len() - i,
    {
        assert(text@.skip(i as int).skip(1) =~= text@.skip(i + 1));
        i = i + 1;
    }
    slice_subrange(text, i, text.len())
}

/// `text` without white space at either end.
pub fn trim(text: &[char]) -> (rest: &[char])
    ensures
        rest@ == trimmed(text@),
{
    let text: &[char] = trim_left(text);
    let mut i: usize = text.len();
    assert(text@.take(text@.len() as int) =~= text@);
    while i > 0 && space(text[i - 1])
        invariant
            i <= text.len(),
            right_trimmed(text@.take(i as int)) == right_trimmed(text@),
        decreases i,
    {
        assert(text@.take(i as int).drop_last() =~= text@.take(i - 1));
        i = i - 1;
    }
    slice_subrange(text, 0, i)
}

} // verus!
