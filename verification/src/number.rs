//! Numbers as text: decimal both ways, and the hexadecimal that names a
//! byte.

use vstd::prelude::*;
use vstd::slice::slice_subrange;

verus! {

/// The decimal digit `d`.
pub open spec fn digit(d: int) -> char {
    ('0' as int + d) as char
}

/// `n` in decimal, without a leading zero.
pub open spec fn digits(n: nat) -> Seq<char>
    decreases n,
{
    if n < 10 {
        seq![digit(n as int)]
    } else {
        digits(n / 10).push(digit(n as int % 10))
    }
}

/// `n` in decimal, a minus sign ahead of a negative one.
pub open spec fn decimal(n: int) -> Seq<char> {
    if n < 0 {
        seq!['-'] + digits((-n) as nat)
    } else {
        digits(n as nat)
    }
}

/// True of the ten decimal digits.
pub open spec fn is_digit(c: char) -> bool {
    '0' <= c <= '9'
}

/// True of text that is decimal digits, one at least.
pub open spec fn all_digits(text: Seq<char>) -> bool {
    &&& text.len() > 0
    &&& forall|i: int| 0 <= i < text.len() ==> is_digit(#[trigger] text[i])
}

/// The number that decimal digits spell.
pub open spec fn digits_value(text: Seq<char>) -> nat
    decreases text.len(),
{
    if text.len() == 0 {
        0
    } else {
        10 * digits_value(text.drop_last()) + (text.last() as nat - '0' as nat) as nat
    }
}

/// The number `text` spells in decimal, if it spells one of at most `most`.
pub open spec fn magnitude(text: Seq<char>, most: nat) -> Option<nat> {
    if all_digits(text) && digits_value(text) <= most {
        Some(digits_value(text))
    } else {
        None
    }
}

/// The u16 that `text` spells: digits, a plus sign ahead of them or not.
pub open spec fn u16_in(text: Seq<char>) -> Option<u16> {
    let unsigned = if text.len() > 0 && text[0] == '+' {
        text.skip(1)
    } else {
        text
    };
    match magnitude(unsigned, u16::MAX as nat) {
        Some(n) => Some(n as u16),
        None => None,
    }
}

/// The i64 that `text` spells: digits, one sign ahead of them or none.
pub open spec fn i64_in(text: Seq<char>) -> Option<i64> {
    if text.len() > 0 && text[0] == '-' {
        match magnitude(text.skip(1), 0x8000_0000_0000_0000) {
            Some(n) => Some((-(n as int)) as i64),
            None => None,
        }
    } else if text.len() > 0 && text[0] == '+' {
        match magnitude(text.skip(1), i64::MAX as nat) {
            Some(n) => Some(n as i64),
            None => None,
        }
    } else {
        match magnitude(text, i64::MAX as nat) {
            Some(n) => Some(n as i64),
            None => None,
        }
    }
}

/// Appends `n` in decimal.
fn push_digits(text: &mut String, n: u64)
    ensures
        final(text)@ == old(text)@ + digits(n as nat),
    decreases n,
{
    if n >= 10 {
        push_digits(text, n / 10);
    }
    text.push(((n % 10) as u8 + 48) as char);
    assert(text@ =~= old(text)@ + digits(n as nat));
}

/// `n` in decimal.
#[must_use]
pub fn unsigned_text(n: u64) -> (text: String)
    ensures
        text@ == decimal(n as int),
{
    let mut text: String = String::new();
    push_digits(&mut text, n);
    assert(text@ =~= digits(n as nat));
    text
}

/// `n` in decimal, a minus sign ahead of a negative one.
#[must_use]
pub fn signed_text(n: i64) -> (text: String)
    ensures
        text@ == decimal(n as int),
{
    let mut text: String = String::new();
    if n < 0 {
        text.push('-');
        push_digits(&mut text, (-(n as i128)) as u64);
    } else {
        push_digits(&mut text, n as u64);
    }
    assert(text@ =~= decimal(n as int));
    text
}

/// A longer run of digits spells no smaller a number.
proof fn lemma_digits_value_grows(text: Seq<char>, n: int)
    requires
        0 <= n <= text.len(),
        forall|i: int| 0 <= i < text.len() ==> is_digit(#[trigger] text[i]),
    ensures
        digits_value(text.take(n)) <= digits_value(text),
    decreases text.len() - n,
{
    if n == text.len() {
        assert(text.take(n) =~= text);
    } else {
        lemma_digits_value_grows(text, n + 1);
        assert(text.take(n + 1).drop_last() =~= text.take(n));
        assert(text.take(n + 1).last() == text[n]);
    }
}

/// The number `text` spells in decimal, if it spells one of at most `most`.
fn read_magnitude(text: &[char], most: u64) -> (n: Option<u64>)
    ensures
        match n {
            Some(n) => magnitude(text@, most as nat) == Some(n as nat),
            None => magnitude(text@, most as nat) is None,
        },
{
    if text.len() == 0 {
        return None;
    }
    let mut value: u64 = 0;
    let mut i: usize = 0;
    while i < text.len()
        invariant
            i <= text.len(),
            value <= most,
            value as nat == digits_value(text@.take(i as int)),
            forall|j: int| 0 <= j < i ==> is_digit(#[trigger] text@[j]),
        decreases text.len() - i,
    {
        let c: char = text[i];
        if c < '0' || c > '9' {
            assert(!is_digit(text@[i as int]));
            return None;
        }
        let next: u128 = value as u128 * 10 + (c as u128 - 48);
        proof {
            assert(text@.take(i + 1).drop_last() =~= text@.take(i as int));
            assert(text@.take(i + 1).last() == c);
            if next > most && all_digits(text@) {
                lemma_digits_value_grows(text@, i + 1);
            }
        }
        if next > most as u128 {
            return None;
        }
        value = next as u64;
        i = i + 1;
    }
    assert(text@.take(text@.len() as int) =~= text@);
    Some(value)
}

/// The u16 that `text` spells, if it spells one.
#[must_use]
pub fn read_u16(text: &[char]) -> (n: Option<u16>)
    ensures
        n == u16_in(text@),
{
    let unsigned: &[char] = if text.len() > 0 && text[0] == '+' {
        slice_subrange(text, 1, text.len())
    } else {
        text
    };
    match read_magnitude(unsigned, 65535) {
        Some(n) => Some(n as u16),
        None => None,
    }
}

/// The i64 that `text` spells, if it spells one.
#[must_use]
pub fn read_i64(text: &[char]) -> (n: Option<i64>)
    ensures
        n == i64_in(text@),
{
    if text.len() > 0 && text[0] == '-' {
        match read_magnitude(slice_subrange(text, 1, text.len()), 0x8000_0000_0000_0000) {
            Some(n) => Some((-(n as i128)) as i64),
            None => None,
        }
    } else if text.len() > 0 && text[0] == '+' {
        match read_magnitude(slice_subrange(text, 1, text.len()), 0x7FFF_FFFF_FFFF_FFFF) {
            Some(n) => Some(n as i64),
            None => None,
        }
    } else {
        match read_magnitude(text, 0x7FFF_FFFF_FFFF_FFFF) {
            Some(n) => Some(n as i64),
            None => None,
        }
    }
}

/// Digits written of a number spell that number.
pub proof fn lemma_digits_read_back(n: nat)
    ensures
        all_digits(digits(n)),
        digits_value(digits(n)) == n,
    decreases n,
{
    if n >= 10 {
        lemma_digits_read_back(n / 10);
        assert(digits(n).drop_last() =~= digits(n / 10));
        assert(digits(n).last() == digit(n as int % 10));
    } else {
        assert(digits(n).drop_last() =~= Seq::empty());
        assert(digits_value(digits(n).drop_last()) == 0);
    }
}

/// An i64 written in decimal reads back as itself.
pub proof fn lemma_decimal_reads_back(n: i64)
    ensures
        i64_in(decimal(n as int)) == Some(n),
{
    if n < 0 {
        lemma_digits_read_back((-(n as int)) as nat);
        assert(decimal(n as int).skip(1) =~= digits((-(n as int)) as nat));
    } else {
        lemma_digits_read_back(n as nat);
        assert(is_digit(digits(n as nat)[0]));
    }
}

/// A u16 written in decimal reads back as itself.
pub proof fn lemma_u16_reads_back(n: u16)
    ensures
        u16_in(decimal(n as int)) == Some(n),
{
    lemma_digits_read_back(n as nat);
    assert(is_digit(digits(n as nat)[0]));
}

/// The lower-case hexadecimal digit of `n`.
pub open spec fn hex_digit(n: int) -> char {
    if n < 10 {
        ('0' as int + n) as char
    } else {
        ('a' as int + n - 10) as char
    }
}

/// `byte` as two lower-case hexadecimal digits.
pub open spec fn hex_byte(byte: u8) -> Seq<char> {
    seq![hex_digit(byte as int / 16), hex_digit(byte as int % 16)]
}

/// `byte` as `0x` and two digits, which is how a message names one.
pub open spec fn hex_name(byte: u8) -> Seq<char> {
    seq!['0', 'x'] + hex_byte(byte)
}

/// `n` as `0x` and eight digits.
pub open spec fn hex_u32(n: u32) -> Seq<char> {
    seq!['0', 'x'] + hex_byte((n / 0x100_0000) as u8) + hex_byte((n / 0x1_0000 % 256) as u8)
        + hex_byte((n / 0x100 % 256) as u8) + hex_byte((n % 256) as u8)
}

/// The lower-case hexadecimal digit of `n`.
fn hex_char(n: u8) -> (c: char)
    requires
        n < 16,
    ensures
        c == hex_digit(n as int),
{
    if n < 10 {
        (48 + n) as char
    } else {
        (87 + n) as char
    }
}

/// Appends `byte` as two lower-case hexadecimal digits.
pub fn push_hex_byte(text: &mut String, byte: u8)
    ensures
        final(text)@ == old(text)@ + hex_byte(byte),
{
    text.push(hex_char(byte / 16));
    text.push(hex_char(byte % 16));
    assert(text@ =~= old(text)@ + hex_byte(byte));
}

/// `byte` as `0x` and two digits.
#[must_use]
pub fn hex_name_text(byte: u8) -> (text: String)
    ensures
        text@ == hex_name(byte),
{
    let mut text: String = String::new();
    text.push('0');
    text.push('x');
    push_hex_byte(&mut text, byte);
    assert(text@ =~= hex_name(byte));
    text
}

/// `n` as `0x` and eight digits.
#[must_use]
pub fn hex_u32_text(n: u32) -> (text: String)
    ensures
        text@ == hex_u32(n),
{
    let mut text: String = String::new();
    text.push('0');
    text.push('x');
    push_hex_byte(&mut text, (n / 0x100_0000) as u8);
    push_hex_byte(&mut text, (n / 0x1_0000 % 256) as u8);
    push_hex_byte(&mut text, (n / 0x100 % 256) as u8);
    push_hex_byte(&mut text, (n % 256) as u8);
    assert(text@ =~= hex_u32(n));
    text
}

/// The value of a hexadecimal digit of either case.
pub open spec fn hex_value(c: char) -> Option<int> {
    if '0' <= c <= '9' {
        Some(c as int - '0' as int)
    } else if 'a' <= c <= 'f' {
        Some(c as int - 'a' as int + 10)
    } else if 'A' <= c <= 'F' {
        Some(c as int - 'A' as int + 10)
    } else {
        None
    }
}

/// The value of a hexadecimal digit of either case, if `c` is one.
#[must_use]
pub fn read_hex_digit(c: char) -> (n: Option<u8>)
    ensures
        match n {
            Some(n) => n < 16 && hex_value(c) == Some(n as int),
            None => hex_value(c) is None,
        },
{
    if '0' <= c && c <= '9' {
        Some((c as u32 - 48) as u8)
    } else if 'a' <= c && c <= 'f' {
        Some((c as u32 - 87) as u8)
    } else if 'A' <= c && c <= 'F' {
        Some((c as u32 - 55) as u8)
    } else {
        None
    }
}

/// A hexadecimal digit that was written reads back as its value.
pub proof fn lemma_hex_digit_reads_back(n: int)
    requires
        0 <= n < 16,
    ensures
        hex_value(hex_digit(n)) == Some(n),
{
}

} // verus!
