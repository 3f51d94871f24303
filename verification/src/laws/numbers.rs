//! Numbers as bytes and as text.

use vstd::prelude::*;

use crate::error::Fault;
use crate::number;
use crate::wire;

verus! {

/// The failure of a field that runs past the message, which no later attempt
/// will change.
pub open spec fn breaks_off() -> Fault {
    Fault { message: "a field that runs past the message"@, retryable: false }
}

/// A byte is read as it stands, and nothing behind it is touched.
pub proof fn lemma_a_byte_is_read(a: u8, rest: Seq<u8>)
    ensures
        wire::next_byte(seq![a] + rest) == (Ok::<u8, Fault>(a), rest),
        wire::next_byte(Seq::empty()) == (Err::<u8, Fault>(breaks_off()), Seq::<u8>::empty()),
{
    assert((seq![a] + rest).skip(1) =~= rest);
}

/// Two bytes are the u16 they add up to, in whichever order they are read;
/// fewer are none, and are left where they are.
pub proof fn lemma_two_bytes_are_read(a: u8, b: u8, rest: Seq<u8>, short: Seq<u8>)
    requires
        short.len() < 2,
    ensures
        wire::next_u16(seq![a, b] + rest) == (Ok::<u16, Fault>((a + 256 * b) as u16), rest),
        wire::next_u16_be(seq![a, b] + rest) == (Ok::<u16, Fault>((256 * a + b) as u16), rest),
        wire::next_u16(short) == (Err::<u16, Fault>(breaks_off()), short),
        wire::next_u16_be(short) == (Err::<u16, Fault>(breaks_off()), short),
{
    assert((seq![a, b] + rest).skip(2) =~= rest);
}

/// Four bytes are the u32 they add up to, in whichever order they are read,
/// and the i32 that is that number or, from two to the thirty-first on, two
/// to the thirty-second less; fewer are none, and are left where they are.
pub proof fn lemma_four_bytes_are_read(
    a: u8,
    b: u8,
    c: u8,
    d: u8,
    rest: Seq<u8>,
    short: Seq<u8>,
)
    requires
        short.len() < 4,
    ensures
        ({
            let s = seq![a, b, c, d] + rest;
            let n = a + 256 * b + 65536 * c + 16777216 * d;
            &&& wire::next_u32(s) == (Ok::<u32, Fault>(n as u32), rest)
            &&& wire::next_u32_be(seq![d, c, b, a] + rest) == (Ok::<u32, Fault>(n as u32), rest)
            &&& n < 0x8000_0000 ==> wire::next_i32(s) == (Ok::<i32, Fault>(n as i32), rest)
            &&& n >= 0x8000_0000 ==> wire::next_i32(s) == (
                Ok::<i32, Fault>((n - 0x1_0000_0000) as i32),
                rest,
            )
        }),
        wire::next_u32(short) == (Err::<u32, Fault>(breaks_off()), short),
        wire::next_u32_be(short) == (Err::<u32, Fault>(breaks_off()), short),
        wire::next_i32(short) == (Err::<i32, Fault>(breaks_off()), short),
{
    assert((seq![a, b, c, d] + rest).skip(4) =~= rest);
    assert((seq![d, c, b, a] + rest).skip(4) =~= rest);
}

/// Eight bytes are the u64 they add up to; fewer are none, and are left where
/// they are.
pub proof fn lemma_eight_bytes_are_read(b: Seq<u8>, rest: Seq<u8>, short: Seq<u8>)
    requires
        b.len() == 8,
        short.len() < 8,
    ensures
        wire::next_u64(b + rest) == (
            Ok::<u64, Fault>(
                (b[0] + 0x100 * b[1] + 0x1_0000 * b[2] + 0x100_0000 * b[3] + 0x1_0000_0000 * b[4]
                    + 0x100_0000_0000 * b[5] + 0x1_0000_0000_0000 * b[6] + 0x100_0000_0000_0000
                    * b[7]) as u64,
            ),
            rest,
        ),
        wire::next_u64(short) == (Err::<u64, Fault>(breaks_off()), short),
{
    let s = b + rest;
    assert(s.skip(8) =~= rest);
    assert(s.skip(4)[0] == b[4] && s.skip(4)[1] == b[5] && s.skip(4)[2] == b[6] && s.skip(4)[3]
        == b[7]);
}

/// As many bytes as are asked for are taken, or passed, where there are as
/// many; where there are fewer, none are.
pub proof fn lemma_bytes_are_taken(bytes: Seq<u8>, rest: Seq<u8>, count: nat)
    ensures
        wire::next_take(bytes + rest, bytes.len()) == (Ok::<Seq<u8>, Fault>(bytes), rest),
        wire::next_skip(bytes + rest, bytes.len()) == (Ok::<(), Fault>(()), rest),
        count > rest.len() ==> wire::next_take(rest, count) == (
            Err::<Seq<u8>, Fault>(breaks_off()),
            rest,
        ),
        count > rest.len() ==> wire::next_skip(rest, count) == (
            Err::<(), Fault>(breaks_off()),
            rest,
        ),
{
    assert((bytes + rest).take(bytes.len() as int) =~= bytes);
    assert((bytes + rest).skip(bytes.len() as int) =~= rest);
}

/// A number is written in the bytes that add up to it, as many as its width.
pub proof fn lemma_bytes_add_up(n: u16, m: u32)
    ensures
        wire::le16(n).len() == 2 && wire::le16(n)[0] + 256 * wire::le16(n)[1] == n,
        wire::be16(n).len() == 2 && 256 * wire::be16(n)[0] + wire::be16(n)[1] == n,
        ({
            let b = wire::le32(m);
            b.len() == 4 && b[0] + 256 * b[1] + 65536 * b[2] + 16777216 * b[3] == m
        }),
        ({
            let b = wire::be32(m);
            b.len() == 4 && 16777216 * b[0] + 65536 * b[1] + 256 * b[2] + b[3] == m
        }),
{
    wire::lemma_u32_reads_back(m, Seq::empty());
    assert(wire::le32(m) + Seq::empty() =~= wire::le32(m));
    assert(wire::be32(m) + Seq::empty() =~= wire::be32(m));
}

/// Eight bytes add up to the number they were written for.
pub proof fn lemma_eight_bytes_add_up(n: u64)
    ensures
        ({
            let b = wire::le64(n);
            &&& b.len() == 8
            &&& b[0] + 0x100 * b[1] + 0x1_0000 * b[2] + 0x100_0000 * b[3] + 0x1_0000_0000 * b[4]
                + 0x100_0000_0000 * b[5] + 0x1_0000_0000_0000 * b[6] + 0x100_0000_0000_0000 * b[7]
                == n
        }),
{
    let low = (n % 0x1_0000_0000) as u32;
    let high = (n / 0x1_0000_0000) as u32;
    let b = wire::le64(n);
    lemma_bytes_add_up(0, low);
    lemma_bytes_add_up(0, high);
    assert(forall|i: int| 0 <= i < 4 ==> b[i] == #[trigger] wire::le32(low)[i]);
    assert(forall|i: int| 0 <= i < 4 ==> b[i + 4] == #[trigger] wire::le32(high)[i]);
    assert(b[4] == wire::le32(high)[0] && b[5] == wire::le32(high)[1] && b[6] == wire::le32(
        high,
    )[2] && b[7] == wire::le32(high)[3]);
    assert(n == low + 0x1_0000_0000 * high);
}

/// A signed number is written as itself, and a negative one as itself and two
/// to the width.
pub proof fn lemma_signed_numbers_wrap(n: i32, m: i64)
    ensures
        n >= 0 ==> wire::le_i32(n) == wire::le32(n as u32),
        n < 0 ==> wire::le_i32(n) == wire::le32((n + 0x1_0000_0000) as u32),
        m >= 0 ==> wire::le_i64(m) == wire::le64(m as u64),
        m < 0 ==> wire::le_i64(m) == wire::le64((m + 0x1_0000_0000_0000_0000) as u64),
{
    lemma_complement(n as int, 0x1_0000_0000);
    lemma_complement(m as int, 0x1_0000_0000_0000_0000);
}

/// A number's complement is itself, or itself and the modulus.
proof fn lemma_complement(n: int, modulus: int)
    requires
        0 < modulus,
        -modulus <= n < modulus,
    ensures
        n >= 0 ==> wire::twos_complement(n, modulus) == n,
        n < 0 ==> wire::twos_complement(n, modulus) == n + modulus,
{
    if n >= 0 {
        vstd::arithmetic::div_mod::lemma_small_mod(n as nat, modulus as nat);
    } else {
        vstd::arithmetic::div_mod::lemma_small_mod((n + modulus) as nat, modulus as nat);
        vstd::arithmetic::div_mod::lemma_mod_add_multiples_vanish(n, modulus);
    }
}

/// Decimal is built digit by digit: a number below ten is its digit, ten
/// times a number and a digit is that number's decimal and the digit, and a
/// negative number has a minus sign ahead of its opposite.
pub proof fn lemma_decimal_is_built_digit_by_digit(n: nat, d: nat)
    requires
        d < 10,
    ensures
        number::decimal(d as int) == seq!["0123456789"@[d as int]],
        n > 0 ==> number::decimal((10 * n + d) as int) == number::decimal(n as int).push(
            "0123456789"@[d as int],
        ),
        n > 0 ==> number::decimal(-(n as int)) == seq!['-'] + number::decimal(n as int),
{
    reveal_strlit("0123456789");
    assert((10 * n + d) / 10 == n);
    assert((10 * n + d) % 10 == d);
}

/// Digits spell the number they build up to, as long as it fits, and then no
/// number at all, however many digits there are.
pub proof fn lemma_digits_spell_a_number(text: Seq<char>, d: nat)
    requires
        d < 10,
        text.len() == 0 || ('0' <= text[0] <= '9'),
    ensures
        number::i64_in(seq!["0123456789"@[d as int]]) == Some(d as i64),
        number::u16_in(seq!["0123456789"@[d as int]]) == Some(d as u16),
        ({
            let more = text.push("0123456789"@[d as int]);
            &&& number::i64_in(text) matches Some(n) ==> number::i64_in(more) == (if 10 * n + d
                <= 0x7FFF_FFFF_FFFF_FFFF {
                Some((10 * n + d) as i64)
            } else {
                None
            })
            &&& text.len() > 0 && number::i64_in(text) is None ==> number::i64_in(more) is None
            &&& number::u16_in(text) matches Some(n) ==> number::u16_in(more) == (if 10 * n + d
                <= 65535 {
                Some((10 * n + d) as u16)
            } else {
                None
            })
            &&& text.len() > 0 && number::u16_in(text) is None ==> number::u16_in(more) is None
        }),
{
    reveal_strlit("0123456789");
    let c = "0123456789"@[d as int];
    let one = seq![c];
    let more = text.push(c);
    assert(c as int == '0' as int + d);
    assert(one.drop_last() =~= Seq::empty());
    assert(number::digits_value(Seq::<char>::empty()) == 0);
    assert(number::digits_value(one) == d);
    assert(more.drop_last() =~= text);
    assert(more.last() == c);
    assert(number::digits_value(more) == 10 * number::digits_value(text) + d);
    assert forall|i: int| 0 <= i < text.len() implies more[i] == #[trigger] text[i] by {}
    assert(number::all_digits(one));
    if number::all_digits(text) {
        assert(number::all_digits(more));
    }
    if number::all_digits(more) && text.len() > 0 {
        assert forall|i: int| 0 <= i < text.len() implies number::is_digit(#[trigger] text[i]) by {
            assert(number::is_digit(more[i]));
        }
        assert(number::all_digits(text));
    }
    if text.len() > 0 {
        assert(more[0] == text[0]);
    }
}

/// One sign may stand ahead of the digits: a plus sign changes nothing, a
/// minus sign makes the number its opposite, down to the least there is, and
/// an unsigned number has none.
pub proof fn lemma_one_sign_may_stand_ahead(text: Seq<char>)
    requires
        text.len() > 0,
        text[0] != '+',
        text[0] != '-',
    ensures
        number::i64_in(seq!['+'] + text) == number::i64_in(text),
        number::u16_in(seq!['+'] + text) == number::u16_in(text),
        number::i64_in(text) matches Some(n) ==> n >= 0 && number::i64_in(seq!['-'] + text) == Some(
            (-n) as i64,
        ),
        number::i64_in(seq!['-'] + text) matches Some(n) ==> (number::i64_in(text) == Some(
            (-n) as i64,
        ) || n == i64::MIN),
        number::u16_in(seq!['-'] + text) is None,
{
    assert((seq!['+'] + text).skip(1) =~= text);
    assert((seq!['-'] + text).skip(1) =~= text);
    let minus = seq!['-'] + text;
    assert(!number::is_digit(minus[0]));
}

/// What is not a digit, and not a sign ahead of digits, spells no number.
pub proof fn lemma_anything_else_spells_no_number(text: Seq<char>, i: int)
    requires
        text.len() == 0 || (0 <= i < text.len() && !('0' <= text[i] <= '9') && (i > 0 || (text[0]
            != '+' && text[0] != '-') || text.len() == 1)),
    ensures
        number::i64_in(text) is None,
        number::u16_in(text) is None,
{
    if text.len() > 0 {
        assert(!number::is_digit(text[i]));
        if i > 0 {
            assert(text.skip(1)[i - 1] == text[i]);
        }
    }
}

/// A hexadecimal digit is the character at its value among the sixteen, in
/// either case when it is read and in lower case when it is written.
pub proof fn lemma_hexadecimal_digits(c: char, n: int)
    requires
        0 <= n < 16,
    ensures
        number::hex_value(c) == Some(n) <==> (c == "0123456789abcdef"@[n] || c
            == "0123456789ABCDEF"@[n]),
        number::hex_value(c) matches Some(m) ==> 0 <= m < 16,
        number::hex_digit(n) == "0123456789abcdef"@[n],
{
    reveal_strlit("0123456789abcdef");
    reveal_strlit("0123456789ABCDEF");
}

/// A byte is named by `0x` and its two digits, the high one first.
pub proof fn lemma_a_byte_is_named(byte: u8)
    ensures
        number::hex_name(byte) == seq![
            '0',
            'x',
            "0123456789abcdef"@[byte as int / 16],
            "0123456789abcdef"@[byte as int % 16],
        ],
{
    lemma_byte_digits(byte);
    assert(number::hex_name(byte) =~= seq![
        '0',
        'x',
        "0123456789abcdef"@[byte as int / 16],
        "0123456789abcdef"@[byte as int % 16],
    ]);
}

/// A u32 is named by `0x` and the digits of its four bytes, the highest
/// first.
pub proof fn lemma_a_u32_is_named(a: u8, b: u8, c: u8, d: u8)
    ensures
        number::hex_u32((16777216 * a + 65536 * b + 256 * c + d) as u32) == seq![
            '0',
            'x',
            "0123456789abcdef"@[a as int / 16],
            "0123456789abcdef"@[a as int % 16],
            "0123456789abcdef"@[b as int / 16],
            "0123456789abcdef"@[b as int % 16],
            "0123456789abcdef"@[c as int / 16],
            "0123456789abcdef"@[c as int % 16],
            "0123456789abcdef"@[d as int / 16],
            "0123456789abcdef"@[d as int % 16],
        ],
{
    let n = (16777216 * a + 65536 * b + 256 * c + d) as u32;
    lemma_byte_digits(a);
    lemma_byte_digits(b);
    lemma_byte_digits(c);
    lemma_byte_digits(d);
    lemma_bytes_of_a_sum(a, b, c, d);
    lemma_digits_in_turn(
        number::hex_byte(a),
        number::hex_byte(b),
        number::hex_byte(c),
        number::hex_byte(d),
    );
}

/// Four bytes that add up to a number are its bytes.
proof fn lemma_bytes_of_a_sum(a: u8, b: u8, c: u8, d: u8)
    ensures
        ({
            let n = (16777216 * a + 65536 * b + 256 * c + d) as u32;
            &&& (n / 0x100_0000) as u8 == a
            &&& (n / 0x1_0000 % 256) as u8 == b
            &&& (n / 0x100 % 256) as u8 == c
            &&& (n % 256) as u8 == d
        }),
{
    let n = 16777216 * a + 65536 * b + 256 * c + d;
    assert(n / 0x100 == 65536 * a + 256 * b + c);
    assert(n / 0x1_0000 == 256 * a + b);
    assert(n / 0x100_0000 == a);
}

/// Four pairs of digits stand in turn.
proof fn lemma_digits_in_turn(a: Seq<char>, b: Seq<char>, c: Seq<char>, d: Seq<char>)
    requires
        a.len() == 2,
        b.len() == 2,
        c.len() == 2,
        d.len() == 2,
    ensures
        seq!['0', 'x'] + a + b + c + d == seq![
            '0',
            'x',
            a[0],
            a[1],
            b[0],
            b[1],
            c[0],
            c[1],
            d[0],
            d[1],
        ],
{
    assert(seq!['0', 'x'] + a + b + c + d =~= seq![
        '0',
        'x',
        a[0],
        a[1],
        b[0],
        b[1],
        c[0],
        c[1],
        d[0],
        d[1],
    ]);
}

/// The two digits of a byte.
proof fn lemma_byte_digits(byte: u8)
    ensures
        number::hex_byte(byte) == seq![
            "0123456789abcdef"@[byte as int / 16],
            "0123456789abcdef"@[byte as int % 16],
        ],
{
    lemma_hexadecimal_digits('0', byte as int / 16);
    lemma_hexadecimal_digits('0', byte as int % 16);
}

/// The least number there is has one digit more than its opposite can have:
/// it is spelled by a minus sign and 9223372036854775808, with zeros ahead of
/// it or not, and by nothing else.
pub proof fn lemma_the_least_number_is_spelled(text: Seq<char>, c: char)
    requires
        text.len() > 0,
        '0' <= text[0] <= '9',
    ensures
        number::i64_in(seq!['-'] + text.push(c)) == Some(i64::MIN) <==> (number::i64_in(text)
            == Some(922337203685477580i64) && c == '8'),
        number::i64_in(seq!['-'] + seq![c]) != Some(i64::MIN),
{
    let more = text.push(c);
    assert((seq!['-'] + more).skip(1) =~= more);
    assert((seq!['-'] + seq![c]).skip(1) =~= seq![c]);
    assert(seq![c].drop_last() =~= Seq::empty());
    assert(number::digits_value(Seq::<char>::empty()) == 0);
    assert(more.drop_last() =~= text);
    assert(more.last() == c);
    assert forall|i: int| 0 <= i < text.len() implies more[i] == #[trigger] text[i] by {}
    if number::all_digits(more) {
        assert forall|i: int| 0 <= i < text.len() implies number::is_digit(#[trigger] text[i]) by {
            assert(number::is_digit(more[i]));
        }
        assert(number::is_digit(more[text.len() as int]));
        assert(number::all_digits(text));
    }
    if number::all_digits(text) && c == '8' {
        assert(number::all_digits(more));
    }
    if number::all_digits(seq![c]) {
        assert(number::is_digit(seq![c][0]));
    }
}

/// A number that sixteen bits cannot say is said as the most they can.
pub proof fn lemma_a_number_is_held_to_sixteen_bits(n: nat)
    ensures
        n < 65536 ==> wire::saturated(n) == n,
        n >= 65536 ==> wire::saturated(n) == 65535,
{
}

} // verus!
