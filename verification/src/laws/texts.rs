//! Text on the wire, and what is left of it when it is trimmed.

use vstd::prelude::*;
use vstd::utf8::*;

use crate::error::Fault;
use crate::laws::numbers::breaks_off;
use crate::text;
use crate::wire;

verus! {

/// Text is written character by character: two bytes for one that sixteen
/// bits can say, the low one first, and for any other the two halves of a
/// surrogate pair that add up to it.
pub proof fn lemma_characters_are_written(c: char, rest: Seq<char>)
    ensures
        wire::ucs2_bytes(Seq::empty()) == Seq::<u8>::empty(),
        (c as u32) < 0x10000 ==> wire::ucs2_bytes(seq![c] + rest) == seq![
            (c as u32 % 256) as u8,
            (c as u32 / 256) as u8,
        ] + wire::ucs2_bytes(rest),
        (c as u32) >= 0x10000 ==> ({
            let s = wire::ucs2_bytes(seq![c] + rest);
            let high = s[0] + 256 * s[1];
            let low = s[2] + 256 * s[3];
            &&& s.len() == 4 + wire::ucs2_bytes(rest).len()
            &&& s.skip(4) == wire::ucs2_bytes(rest)
            &&& 0xD800 <= high <= 0xDBFF
            &&& 0xDC00 <= low <= 0xDFFF
            &&& c as u32 == 0x10000 + 0x400 * (high - 0xD800) + (low - 0xDC00)
        }),
{
    let whole = seq![c] + rest;
    assert(whole.drop_first() =~= rest);
    assert(wire::ucs2_bytes(Seq::empty()) =~= Seq::<u8>::empty());
    let units = text::utf16_units(c);
    lemma_units_are_written(units, text::utf16(rest));
    char_is_scalar(c);
    if (c as u32) < 0x10000 {
        assert(text::unit_bytes(units) =~= seq![(c as u32 % 256) as u8, (c as u32 / 256) as u8]);
    } else {
        let s = wire::ucs2_bytes(whole);
        let over = c as u32 - 0x10000;
        assert(over == 0x400 * (over / 0x400) + over % 0x400);
        assert(s.skip(4) =~= wire::ucs2_bytes(rest));
        let b = text::unit_bytes(units);
        assert(b.len() == 4);
        assert(s[0] == b[0] && s[1] == b[1] && s[2] == b[2] && s[3] == b[3]);
        assert(b[0] == (units[0] % 256) as u8 && b[1] == (units[0] / 256) as u8);
        assert(b[2] == (units[1] % 256) as u8 && b[3] == (units[1] / 256) as u8);
    }
}

/// The bytes of units stand in the order of the units.
proof fn lemma_units_are_written(a: Seq<u16>, b: Seq<u16>)
    ensures
        text::unit_bytes(a + b) == text::unit_bytes(a) + text::unit_bytes(b),
{
    let whole = text::unit_bytes(a + b);
    let parts = text::unit_bytes(a) + text::unit_bytes(b);
    assert forall|i: int| 0 <= i < whole.len() implies whole[i] == parts[i] by {
        if i < 2 * a.len() {
            assert((a + b)[i / 2] == a[i / 2]);
        } else {
            let j = i - 2 * a.len();
            assert((a + b)[i / 2] == b[j / 2]);
            assert(j % 2 == i % 2);
        }
    }
    assert(whole =~= parts);
}

/// Two bytes are the character they add up to where that is one, whatever
/// follows them; a byte at the end without another is dropped.
pub proof fn lemma_two_bytes_are_a_character(a: u8, b: u8, rest: Seq<u8>)
    ensures
        wire::ucs2_text(Seq::empty()) == Seq::<char>::empty(),
        wire::ucs2_text(seq![a]) == Seq::<char>::empty(),
        !(0xD8 <= b <= 0xDF) ==> wire::ucs2_text(seq![a, b] + rest) == seq![
            (a + 256 * b) as char,
        ] + wire::ucs2_text(rest),
{
    let s = seq![a, b] + rest;
    assert(text::byte_units(seq![a]) =~= Seq::empty());
    assert(text::byte_units(Seq::empty()) =~= Seq::empty());
    assert(s.skip(2) =~= rest);
    lemma_units_are_read(s);
}

/// The units of bytes stand in the order of the bytes.
proof fn lemma_units_are_read(s: Seq<u8>)
    requires
        s.len() >= 2,
    ensures
        text::byte_units(s)[0] == s[0] + 256 * s[1],
        text::byte_units(s).skip(1) == text::byte_units(s.skip(2)),
{
    assert(text::byte_units(s).skip(1) =~= text::byte_units(s.skip(2)));
}

/// Four bytes are one character where they are the two halves of a surrogate
/// pair.
pub proof fn lemma_four_bytes_are_a_character(a: u8, b: u8, c: u8, d: u8, rest: Seq<u8>)
    requires
        0xD8 <= b <= 0xDB,
        0xDC <= d <= 0xDF,
    ensures
        wire::ucs2_text(seq![a, b, c, d] + rest) == seq![
            (0x10000 + 0x400 * (a + 256 * b - 0xD800) + (c + 256 * d - 0xDC00)) as char,
        ] + wire::ucs2_text(rest),
{
    let s = seq![a, b, c, d] + rest;
    lemma_units_are_read(s);
    lemma_units_are_read(s.skip(2));
    assert(s.skip(2).skip(2) =~= rest);
    let units = text::byte_units(s);
    assert(units[1] == units.skip(1)[0]);
    assert(units.skip(2) =~= units.skip(1).skip(1));
}

/// Half of a surrogate pair without the other is U+FFFD, and what follows it
/// is read as if it stood alone.
pub proof fn lemma_half_a_pair_is_replaced(a: u8, b: u8, rest: Seq<u8>)
    requires
        0xD8 <= b <= 0xDF,
        0xDC <= b || rest.len() < 2 || !(0xDC <= rest[1] <= 0xDF),
    ensures
        wire::ucs2_text(seq![a, b] + rest) == seq!['\u{FFFD}'] + wire::ucs2_text(rest),
{
    let s = seq![a, b] + rest;
    lemma_units_are_read(s);
    assert(s.skip(2) =~= rest);
    let units = text::byte_units(s);
    if units.len() > 1 {
        lemma_units_are_read(rest);
        assert(units[1] == units.skip(1)[0]);
    }
}

/// Counted text is as many UTF-16 units as the count says, whatever they
/// are; fewer is a failure.
pub proof fn lemma_counted_text_is_read(bytes: Seq<u8>, rest: Seq<u8>)
    requires
        bytes.len() % 2 == 0,
    ensures
        bytes.len() <= 2 * 255 ==> wire::next_b_varchar(
            seq![(bytes.len() / 2) as u8] + bytes + rest,
        ) == (Ok::<Seq<char>, Fault>(wire::ucs2_text(bytes)), rest),
        bytes.len() <= 2 * 65535 ==> wire::next_us_varchar(
            seq![(bytes.len() / 2 % 256) as u8, (bytes.len() / 2 / 256) as u8] + bytes + rest,
        ) == (Ok::<Seq<char>, Fault>(wire::ucs2_text(bytes)), rest),
{
    assert((bytes + rest).take(bytes.len() as int) =~= bytes);
    assert((bytes + rest).skip(bytes.len() as int) =~= rest);
    let n = bytes.len() / 2;
    let short = seq![n as u8] + bytes + rest;
    assert(short.skip(1) =~= bytes + rest);
    let long = seq![(n % 256) as u8, (n / 256) as u8] + bytes + rest;
    assert(long.skip(2) =~= bytes + rest);
    if bytes.len() <= 2 * 65535 {
        assert(wire::le16_value(long) == n);
    }
}

/// Counted text that breaks off is a failure, in its count and in what was
/// counted.
pub proof fn lemma_counted_text_breaks_off(n: u8, m: u8, rest: Seq<u8>)
    ensures
        wire::next_b_varchar(Seq::empty()).0 == Err::<Seq<char>, Fault>(breaks_off()),
        wire::next_us_varchar(seq![n]).0 == Err::<Seq<char>, Fault>(breaks_off()),
        wire::next_us_varchar(Seq::empty()).0 == Err::<Seq<char>, Fault>(breaks_off()),
        rest.len() < 2 * n ==> wire::next_b_varchar(seq![n] + rest).0 == Err::<Seq<char>, Fault>(
            breaks_off(),
        ),
        rest.len() < 2 * (n + 256 * m) ==> wire::next_us_varchar(seq![n, m] + rest).0 == Err::<
            Seq<char>,
            Fault,
        >(breaks_off()),
{
    assert((seq![n] + rest).skip(1) =~= rest);
    assert((seq![n, m] + rest).skip(2) =~= rest);
}

/// Counted text is written whole behind the number of its UTF-16 units where
/// the count can say it, and otherwise the most of it that the count can say.
pub proof fn lemma_counted_text_is_written(said: Seq<char>)
    ensures
        ({
            let all = wire::ucs2_bytes(said);
            let short = if all.len() <= 510 {
                all
            } else {
                all.take(510)
            };
            let long = if all.len() <= 131070 {
                all
            } else {
                all.take(131070)
            };
            &&& wire::b_varchar_bytes(said) == seq![(short.len() / 2) as u8] + short
            &&& wire::us_varchar_bytes(said) == seq![
                (long.len() / 2 % 256) as u8,
                (long.len() / 2 / 256) as u8,
            ] + long
        }),
{
    let units = text::utf16(said);
    let all = wire::ucs2_bytes(said);
    assert(all.len() == 2 * units.len());
    if units.len() > 255 {
        assert(text::unit_bytes(units.take(255)) =~= all.take(510));
    }
    if units.len() > 65535 {
        assert(text::unit_bytes(units.take(65535)) =~= all.take(131070));
    }
    let short = if units.len() <= 255 {
        all
    } else {
        all.take(510)
    };
    let long = if units.len() <= 65535 {
        all
    } else {
        all.take(131070)
    };
    assert(wire::b_varchar_bytes(said) =~= seq![(short.len() / 2) as u8] + short);
    assert(wire::us_varchar_bytes(said) =~= seq![
        (long.len() / 2 % 256) as u8,
        (long.len() / 2 / 256) as u8,
    ] + long);
}

/// Bytes that are UTF-8 are the text they are, whatever text that is, and
/// bytes that are not are patched.
pub proof fn lemma_utf8_is_its_text(said: Seq<char>, bytes: Seq<u8>)
    ensures
        text::utf8_lossy(encode_utf8(said)) == said,
        valid_utf8(bytes) ==> text::utf8_lossy(bytes) == decode_utf8(bytes),
        !valid_utf8(bytes) ==> text::utf8_lossy(bytes) == text::patched_utf8(bytes),
{
    encode_utf8_valid_utf8(said);
    encode_utf8_decode_utf8(said);
}

/// White space is what Unicode gives that property, and nothing else.
pub proof fn lemma_white_space(c: char)
    ensures
        text::is_space(c) <==> (9 <= c as u32 <= 13 || c as u32 == 0x20 || c as u32 == 0x85 || c
            as u32 == 0xA0 || c as u32 == 0x1680 || 0x2000 <= c as u32 <= 0x200A || c as u32
            == 0x2028 || c as u32 == 0x2029 || c as u32 == 0x202F || c as u32 == 0x205F || c as u32
            == 0x3000),
{
}

/// Text trimmed is the same text whatever white space stands around it, and
/// text that begins and ends with something else is as it is.
pub proof fn lemma_white_space_around_text_is_trimmed(
    ahead: Seq<char>,
    said: Seq<char>,
    behind: Seq<char>,
)
    requires
        forall|i: int| 0 <= i < ahead.len() ==> text::is_space(#[trigger] ahead[i]),
        forall|i: int| 0 <= i < behind.len() ==> text::is_space(#[trigger] behind[i]),
        said.len() > 0 ==> !text::is_space(said[0]) && !text::is_space(said.last()),
    ensures
        text::trimmed(ahead + said + behind) == said,
        said.len() > 0 ==> text::left_trimmed(ahead + said) == said,
        text::left_trimmed(ahead) == Seq::<char>::empty(),
{
    lemma_ahead_is_trimmed(ahead, said + behind);
    assert(ahead + said + behind =~= ahead + (said + behind));
    lemma_ahead_is_trimmed(ahead, said);
    lemma_ahead_is_trimmed(ahead, Seq::empty());
    assert(ahead + Seq::empty() =~= ahead);
    if said.len() == 0 {
        lemma_ahead_is_trimmed(behind, Seq::empty());
        assert(said + behind =~= behind);
        assert(behind + Seq::empty() =~= behind);
        assert(said =~= Seq::empty());
    } else {
        assert((said + behind)[0] == said[0]);
        lemma_behind_is_trimmed(said, behind);
    }
}

/// White space ahead of text is trimmed.
pub proof fn lemma_ahead_is_trimmed(ahead: Seq<char>, said: Seq<char>)
    requires
        forall|i: int| 0 <= i < ahead.len() ==> text::is_space(#[trigger] ahead[i]),
    ensures
        text::left_trimmed(ahead + said) == text::left_trimmed(said),
    decreases ahead.len(),
{
    if ahead.len() == 0 {
        assert(ahead + said =~= said);
    } else {
        assert forall|i: int| 0 <= i < ahead.skip(1).len() implies text::is_space(
            #[trigger] ahead.skip(1)[i],
        ) by {
            assert(ahead.skip(1)[i] == ahead[i + 1]);
        }
        lemma_ahead_is_trimmed(ahead.skip(1), said);
        assert(text::is_space(ahead[0]));
        assert((ahead + said).skip(1) =~= ahead.skip(1) + said);
    }
}

/// White space behind text is trimmed.
proof fn lemma_behind_is_trimmed(said: Seq<char>, behind: Seq<char>)
    requires
        forall|i: int| 0 <= i < behind.len() ==> text::is_space(#[trigger] behind[i]),
        said.len() > 0,
        !text::is_space(said.last()),
    ensures
        text::right_trimmed(said + behind) == said,
    decreases behind.len(),
{
    if behind.len() == 0 {
        assert(said + behind =~= said);
    } else {
        assert forall|i: int| 0 <= i < behind.drop_last().len() implies text::is_space(
            #[trigger] behind.drop_last()[i],
        ) by {
            assert(behind.drop_last()[i] == behind[i]);
        }
        lemma_behind_is_trimmed(said, behind.drop_last());
        assert(text::is_space(behind[behind.len() - 1]));
        assert((said + behind).last() == behind.last());
        assert((said + behind).drop_last() =~= said + behind.drop_last());
    }
}

/// Units of sixteen bits are written one behind the other, the low byte of
/// each first, whatever they are, and read as they were written.
pub proof fn lemma_units_are_two_bytes_each(n: u16, rest: Seq<u16>, bytes: Seq<u8>, i: int)
    ensures
        text::unit_bytes(Seq::empty()) == Seq::<u8>::empty(),
        text::unit_bytes(seq![n] + rest) == seq![(n % 256) as u8, (n / 256) as u8]
            + text::unit_bytes(rest),
        text::byte_units(bytes).len() == bytes.len() / 2,
        0 <= i < bytes.len() / 2 ==> text::byte_units(bytes)[i] == bytes[2 * i] + 256 * bytes[2 * i
            + 1],
{
    assert(text::unit_bytes(Seq::empty()) =~= Seq::<u8>::empty());
    lemma_units_are_written(seq![n], rest);
    assert(text::unit_bytes(seq![n]) =~= seq![(n % 256) as u8, (n / 256) as u8]);
}

/// The units of text are those its bytes are made of, and the text of units
/// is that of their bytes.
pub proof fn lemma_units_are_those_of_the_bytes(said: Seq<char>, units: Seq<u16>)
    ensures
        text::unit_bytes(text::utf16(said)) == wire::ucs2_bytes(said),
        text::utf16_lossy(units) == wire::ucs2_text(text::unit_bytes(units)),
{
    text::lemma_unit_bytes_read_back(units);
}

/// So many characters of UTF-16 are twice as many bytes, and fewer are none.
pub proof fn lemma_so_many_characters_are_read(
    bytes: Seq<u8>,
    rest: Seq<u8>,
    short: Seq<u8>,
    chars: nat,
)
    requires
        bytes.len() % 2 == 0,
        short.len() < 2 * chars,
    ensures
        wire::next_ucs2(bytes + rest, bytes.len() / 2) == (
            Ok::<Seq<char>, Fault>(wire::ucs2_text(bytes)),
            rest,
        ),
        wire::next_ucs2(short, chars) == (Err::<Seq<char>, Fault>(breaks_off()), short),
{
    assert((bytes + rest).take(bytes.len() as int) =~= bytes);
    assert((bytes + rest).skip(bytes.len() as int) =~= rest);
}

} // verus!
