//! The protocol's framing, Tabular Data Stream 7.4: an eight-byte packet
//! header — type, status, length, SPID, packet id, window — ahead of a
//! payload, and a message longer than one packet split across several,
//! the last marked end-of-message. Inside a payload integers are
//! little-endian and text is UCS-2 counted in characters, which is what
//! the `Cursor` and the helpers here read and write; what a message means
//! is `prelogin.rs`, `login.rs`, `batch.rs` and `token.rs`.
//!
//! What each reader does to the bytes it is given stands as a function of
//! those bytes: what it says, and what it leaves unread.

use vstd::prelude::*;
use vstd::slice::slice_subrange;

use crate::error;
use crate::error::{protocol_error, Fault, TransportError};
use crate::number;
use crate::text;

verus! {

/// A SQL batch, from the client.
pub const SQL_BATCH: u8 = 0x01;

/// A token stream, from the server — its answer to everything.
pub const TABULAR_RESULT: u8 = 0x04;

/// The login, from the client.
pub const LOGIN7: u8 = 0x10;

/// The pre-login, from the client; the server answers in a token-stream
/// packet that carries the same shape.
pub const PRELOGIN: u8 = 0x12;

/// The status bit on the last packet of a message.
pub const END_OF_MESSAGE: u8 = 0x01;

/// The header ahead of every packet.
pub const HEADER_LENGTH: usize = 8;

/// The packet size until the server negotiates another.
pub const DEFAULT_PACKET_SIZE: u16 = 4096;

/// The smallest packet the protocol allows, header included.
pub const MIN_PACKET_SIZE: u16 = 512;

/// The largest, which is also what a length field can carry.
pub const MAX_PACKET_SIZE: u16 = 32767;

/// The most one message may be.
pub const MAX_MESSAGE: usize = 67_108_864;

/// What reading from bytes comes to: what was read or why it failed, and
/// the bytes left unread.
pub type Reading<T> = (Result<T, Fault>, Seq<u8>);

// Integers as bytes.

/// `n` in two bytes, the low one first.
pub open spec fn le16(n: u16) -> Seq<u8> {
    seq![(n % 256) as u8, (n / 256) as u8]
}

/// `n` in two bytes, the high one first.
pub open spec fn be16(n: u16) -> Seq<u8> {
    seq![(n / 256) as u8, (n % 256) as u8]
}

/// `n` in four bytes, the lowest first.
pub open spec fn le32(n: u32) -> Seq<u8> {
    seq![
        (n % 256) as u8,
        (n / 0x100 % 256) as u8,
        (n / 0x1_0000 % 256) as u8,
        (n / 0x100_0000) as u8,
    ]
}

/// `n` in four bytes, the highest first.
pub open spec fn be32(n: u32) -> Seq<u8> {
    seq![
        (n / 0x100_0000) as u8,
        (n / 0x1_0000 % 256) as u8,
        (n / 0x100 % 256) as u8,
        (n % 256) as u8,
    ]
}

/// `n` in eight bytes, the lowest first.
pub open spec fn le64(n: u64) -> Seq<u8> {
    le32((n % 0x1_0000_0000) as u32) + le32((n / 0x1_0000_0000) as u32)
}

/// The u16 in two bytes, the low one first.
pub open spec fn le16_value(bytes: Seq<u8>) -> u16 {
    (bytes[0] + 0x100 * bytes[1]) as u16
}

/// The u16 in two bytes, the high one first.
pub open spec fn be16_value(bytes: Seq<u8>) -> u16 {
    (0x100 * bytes[0] + bytes[1]) as u16
}

/// The u32 in four bytes, the lowest first.
pub open spec fn le32_value(bytes: Seq<u8>) -> u32 {
    (bytes[0] + 0x100 * bytes[1] + 0x1_0000 * bytes[2] + 0x100_0000 * bytes[3]) as u32
}

/// The u32 in four bytes, the highest first.
pub open spec fn be32_value(bytes: Seq<u8>) -> u32 {
    (0x100_0000 * bytes[0] + 0x1_0000 * bytes[1] + 0x100 * bytes[2] + bytes[3]) as u32
}

/// The u64 in eight bytes, the lowest first.
pub open spec fn le64_value(bytes: Seq<u8>) -> u64 {
    (le32_value(bytes) + 0x1_0000_0000 * le32_value(bytes.skip(4))) as u64
}

/// `n` in two's complement, `modulus` being two to the width.
pub open spec fn twos_complement(n: int, modulus: int) -> int {
    n % modulus
}

/// The signed number that `n` is in two's complement.
pub open spec fn signed_value(n: int, modulus: int) -> int {
    if n < modulus / 2 {
        n
    } else {
        n - modulus
    }
}

/// `n` in four bytes of two's complement, the lowest first.
pub open spec fn le_i32(n: i32) -> Seq<u8> {
    le32(twos_complement(n as int, 0x1_0000_0000) as u32)
}

/// `n` in eight bytes of two's complement, the lowest first.
pub open spec fn le_i64(n: i64) -> Seq<u8> {
    le64(twos_complement(n as int, 0x1_0000_0000_0000_0000) as u64)
}

/// The i32 in four bytes of two's complement.
pub open spec fn le_i32_value(bytes: Seq<u8>) -> i32 {
    signed_value(le32_value(bytes) as int, 0x1_0000_0000) as i32
}

/// `n`, or the most a u16 can say.
pub open spec fn saturated(n: nat) -> u16 {
    if n <= 0xFFFF {
        n as u16
    } else {
        0xFFFF
    }
}

// Writing.

/// `base + n`, or the most a u16 can say.
pub(crate) fn saturated_sum(base: usize, n: usize) -> (sum: u16)
    requires
        base <= 0xFF,
    ensures
        sum == saturated((base + n) as nat),
{
    if n > 0xFFFF || base + n > 0xFFFF {
        0xFFFF
    } else {
        (base + n) as u16
    }
}

/// Appends `bytes`.
pub fn push_bytes(out: &mut Vec<u8>, bytes: &[u8])
    ensures
        final(out)@ == old(out)@ + bytes@,
{
    out.extend_from_slice(bytes);
    assert(out@ =~= old(out)@ + bytes@);
}

/// Appends `n`, little-endian.
pub fn push_u16(out: &mut Vec<u8>, n: u16)
    ensures
        final(out)@ == old(out)@ + le16(n),
{
    out.push((n % 256) as u8);
    out.push((n / 256) as u8);
    assert(out@ =~= old(out)@ + le16(n));
}

/// Appends `n`, big-endian.
pub fn push_u16_be(out: &mut Vec<u8>, n: u16)
    ensures
        final(out)@ == old(out)@ + be16(n),
{
    out.push((n / 256) as u8);
    out.push((n % 256) as u8);
    assert(out@ =~= old(out)@ + be16(n));
}

/// Appends `n`, little-endian.
pub fn push_u32(out: &mut Vec<u8>, n: u32)
    ensures
        final(out)@ == old(out)@ + le32(n),
{
    out.push((n % 256) as u8);
    out.push((n / 0x100 % 256) as u8);
    out.push((n / 0x1_0000 % 256) as u8);
    out.push((n / 0x100_0000) as u8);
    assert(out@ =~= old(out)@ + le32(n));
}

/// Appends `n`, big-endian.
pub fn push_u32_be(out: &mut Vec<u8>, n: u32)
    ensures
        final(out)@ == old(out)@ + be32(n),
{
    out.push((n / 0x100_0000) as u8);
    out.push((n / 0x1_0000 % 256) as u8);
    out.push((n / 0x100 % 256) as u8);
    out.push((n % 256) as u8);
    assert(out@ =~= old(out)@ + be32(n));
}

/// Appends `n`, little-endian.
pub fn push_i32(out: &mut Vec<u8>, n: i32)
    ensures
        final(out)@ == old(out)@ + le_i32(n),
{
    let m: u32 = if n >= 0 {
        n as u32
    } else {
        (n as i64 + 0x1_0000_0000) as u32
    };
    assert(m == twos_complement(n as int, 0x1_0000_0000));
    push_u32(out, m);
}

/// Appends `n`, little-endian.
pub fn push_u64(out: &mut Vec<u8>, n: u64)
    ensures
        final(out)@ == old(out)@ + le64(n),
{
    push_u32(out, (n % 0x1_0000_0000) as u32);
    push_u32(out, (n / 0x1_0000_0000) as u32);
    assert(out@ =~= old(out)@ + le64(n));
}

/// Appends `n`, little-endian.
pub fn push_i64(out: &mut Vec<u8>, n: i64)
    ensures
        final(out)@ == old(out)@ + le_i64(n),
{
    let m: u64 = if n >= 0 {
        n as u64
    } else {
        (n as i128 + 0x1_0000_0000_0000_0000) as u64
    };
    assert(m == twos_complement(n as int, 0x1_0000_0000_0000_0000));
    push_u64(out, m);
}

// Text.

/// `s` cut at `most` elements.
pub open spec fn cut<A>(s: Seq<A>, most: int) -> Seq<A> {
    if s.len() <= most {
        s
    } else {
        s.take(most)
    }
}

/// `text` as UCS-2, which is UTF-16 little-endian on this wire.
pub open spec fn ucs2_bytes(text: Seq<char>) -> Seq<u8> {
    text::unit_bytes(text::utf16(text))
}

/// UCS-2 `bytes` as text, lossily; an odd trailing byte is dropped.
pub open spec fn ucs2_text(bytes: Seq<u8>) -> Seq<char> {
    text::utf16_lossy(text::byte_units(bytes))
}

/// `text` behind a byte that counts its characters, of which there are 255
/// at most.
pub open spec fn b_varchar_bytes(text: Seq<char>) -> Seq<u8> {
    let units = cut(text::utf16(text), 0xFF);
    seq![units.len() as u8] + text::unit_bytes(units)
}

/// `text` behind a u16 that counts its characters, of which there are 65535
/// at most.
pub open spec fn us_varchar_bytes(text: Seq<char>) -> Seq<u8> {
    let units = cut(text::utf16(text), 0xFFFF);
    le16(units.len() as u16) + text::unit_bytes(units)
}

/// What is left of `text` that was cut at `most` UTF-16 units.
pub open spec fn cut_text(text: Seq<char>, most: int) -> Seq<char> {
    text::utf16_lossy(cut(text::utf16(text), most))
}

/// Text that needs no cutting is whole afterwards.
pub proof fn lemma_short_text_is_not_cut(text: Seq<char>, most: int)
    requires
        text::utf16(text).len() <= most,
    ensures
        cut_text(text, most) == text,
{
    text::lemma_utf16_reads_back(text);
}

/// Text written as UCS-2 reads back as itself.
pub proof fn lemma_ucs2_reads_back(text: Seq<char>)
    ensures
        ucs2_text(ucs2_bytes(text)) == text,
{
    text::lemma_unit_bytes_read_back(text::utf16(text));
    text::lemma_utf16_reads_back(text);
}

/// Appends UTF-16 `units`, the low byte of each first.
pub(crate) fn push_units(out: &mut Vec<u8>, units: &[u16])
    ensures
        final(out)@ == old(out)@ + text::unit_bytes(units@),
{
    let mut i: usize = 0;
    assert(out@ =~= old(out)@ + text::unit_bytes(units@.take(0)));
    while i < units.len()
        invariant
            i <= units.len(),
            out@ == old(out)@ + text::unit_bytes(units@.take(i as int)),
        decreases units.len() - i,
    {
        push_u16(out, units[i]);
        assert(text::unit_bytes(units@.take(i + 1)) =~= text::unit_bytes(units@.take(i as int))
            + le16(units@[i as int]));
        assert(out@ =~= old(out)@ + text::unit_bytes(units@.take(i + 1)));
        i = i + 1;
    }
    assert(units@.take(i as int) =~= units@);
}

/// `text` as UCS-2, which is UTF-16 little-endian on this wire.
#[must_use]
pub fn ucs2(text: &str) -> (bytes: Vec<u8>)
    ensures
        bytes@ == ucs2_bytes(text@),
{
    let units: Vec<u16> = text::encode_utf16(text);
    let mut out: Vec<u8> = Vec::new();
    push_units(&mut out, units.as_slice());
    assert(out@ =~= ucs2_bytes(text@));
    out
}

/// UCS-2 `bytes` as text, lossily; an odd trailing byte is dropped.
#[must_use]
pub fn from_ucs2(bytes: &[u8]) -> (text: String)
    ensures
        text@ == ucs2_text(bytes@),
{
    let mut units: Vec<u16> = Vec::new();
    let count: usize = bytes.len() / 2;
    let mut i: usize = 0;
    while i < count
        invariant
            count == bytes.len() / 2,
            i <= count,
            units@ == text::byte_units(bytes@).take(i as int),
        decreases count - i,
    {
        units.push(bytes[2 * i] as u16 + 0x100 * bytes[2 * i + 1] as u16);
        assert(units@ =~= text::byte_units(bytes@).take(i + 1));
        i = i + 1;
    }
    assert(units@ =~= text::byte_units(bytes@));
    text::decode_utf16_lossy(units.as_slice())
}

/// `text` as a `B_VARCHAR`: a byte counting characters, then UCS-2. Cut at
/// 255 characters, which is what the count can say.
pub fn push_b_varchar(out: &mut Vec<u8>, text: &str)
    ensures
        final(out)@ == old(out)@ + b_varchar_bytes(text@),
{
    let mut units: Vec<u16> = text::encode_utf16(text);
    if units.len() > 0xFF {
        units.truncate(0xFF);
    }
    out.push(units.len() as u8);
    push_units(out, units.as_slice());
    assert(out@ =~= old(out)@ + b_varchar_bytes(text@));
}

/// `text` as a `US_VARCHAR`: a u16 counting characters, then UCS-2. Cut at
/// 65535 characters.
pub fn push_us_varchar(out: &mut Vec<u8>, text: &str)
    ensures
        final(out)@ == old(out)@ + us_varchar_bytes(text@),
{
    let mut units: Vec<u16> = text::encode_utf16(text);
    if units.len() > 0xFFFF {
        units.truncate(0xFFFF);
    }
    push_u16(out, units.len() as u16);
    push_units(out, units.as_slice());
    assert(out@ =~= old(out)@ + us_varchar_bytes(text@));
}

// Reading.

/// `next` on what was read and on what it left, where something was read.
pub open spec fn chain<T, U>(
    reading: Reading<T>,
    next: spec_fn(T, Seq<u8>) -> Reading<U>,
) -> Reading<U> {
    match reading {
        (Ok(value), rest) => next(value, rest),
        (Err(fault), rest) => (Err(fault), rest),
    }
}

/// A field that the message is too short for.
pub open spec fn past_the_message() -> Fault {
    error::fault("a field that runs past the message"@)
}

/// The next `count` bytes of `s`.
pub open spec fn next_take(s: Seq<u8>, count: nat) -> Reading<Seq<u8>> {
    if count <= s.len() {
        (Ok(s.take(count as int)), s.skip(count as int))
    } else {
        (Err(past_the_message()), s)
    }
}

/// Past the next `count` bytes of `s`.
pub open spec fn next_skip(s: Seq<u8>, count: nat) -> Reading<()> {
    if count <= s.len() {
        (Ok(()), s.skip(count as int))
    } else {
        (Err(past_the_message()), s)
    }
}

/// The next byte of `s`.
pub open spec fn next_byte(s: Seq<u8>) -> Reading<u8> {
    if s.len() >= 1 {
        (Ok(s[0]), s.skip(1))
    } else {
        (Err(past_the_message()), s)
    }
}

/// The next little-endian u16 of `s`.
pub open spec fn next_u16(s: Seq<u8>) -> Reading<u16> {
    if s.len() >= 2 {
        (Ok(le16_value(s)), s.skip(2))
    } else {
        (Err(past_the_message()), s)
    }
}

/// The next big-endian u16 of `s`.
pub open spec fn next_u16_be(s: Seq<u8>) -> Reading<u16> {
    if s.len() >= 2 {
        (Ok(be16_value(s)), s.skip(2))
    } else {
        (Err(past_the_message()), s)
    }
}

/// The next little-endian u32 of `s`.
pub open spec fn next_u32(s: Seq<u8>) -> Reading<u32> {
    if s.len() >= 4 {
        (Ok(le32_value(s)), s.skip(4))
    } else {
        (Err(past_the_message()), s)
    }
}

/// The next big-endian u32 of `s`.
pub open spec fn next_u32_be(s: Seq<u8>) -> Reading<u32> {
    if s.len() >= 4 {
        (Ok(be32_value(s)), s.skip(4))
    } else {
        (Err(past_the_message()), s)
    }
}

/// The next little-endian i32 of `s`.
pub open spec fn next_i32(s: Seq<u8>) -> Reading<i32> {
    if s.len() >= 4 {
        (Ok(le_i32_value(s)), s.skip(4))
    } else {
        (Err(past_the_message()), s)
    }
}

/// The next little-endian u64 of `s`.
pub open spec fn next_u64(s: Seq<u8>) -> Reading<u64> {
    if s.len() >= 8 {
        (Ok(le64_value(s)), s.skip(8))
    } else {
        (Err(past_the_message()), s)
    }
}

/// The next `chars` characters of UCS-2 in `s`.
pub open spec fn next_ucs2(s: Seq<u8>, chars: nat) -> Reading<Seq<char>> {
    if 2 * chars <= s.len() {
        (Ok(ucs2_text(s.take(2 * chars as int))), s.skip(2 * chars as int))
    } else {
        (Err(past_the_message()), s)
    }
}

/// The next `B_VARCHAR` of `s`.
pub open spec fn next_b_varchar(s: Seq<u8>) -> Reading<Seq<char>> {
    match next_byte(s) {
        (Ok(chars), rest) => next_ucs2(rest, chars as nat),
        (Err(fault), rest) => (Err(fault), rest),
    }
}

/// The next `US_VARCHAR` of `s`.
pub open spec fn next_us_varchar(s: Seq<u8>) -> Reading<Seq<char>> {
    match next_u16(s) {
        (Ok(chars), rest) => next_ucs2(rest, chars as nat),
        (Err(fault), rest) => (Err(fault), rest),
    }
}

/// Reads a payload's fields in order.
pub struct Cursor<'a> {
    rest: &'a [u8],
}

impl View for Cursor<'_> {
    type V = Seq<u8>;

    /// What remains.
    closed spec fn view(&self) -> Seq<u8> {
        self.rest@
    }
}

impl<'a> Cursor<'a> {
    /// A cursor at the start of `bytes`.
    #[must_use]
    pub fn new(bytes: &'a [u8]) -> (cursor: Self)
        ensures
            cursor@ == bytes@,
    {
        Cursor { rest: bytes }
    }

    /// True when nothing remains.
    #[must_use]
    pub fn is_empty(&self) -> (empty: bool)
        ensures
            empty == (self@.len() == 0),
    {
        self.rest.len() == 0
    }

    /// What remains.
    #[must_use]
    pub fn remaining(&self) -> (bytes: &'a [u8])
        ensures
            bytes@ == self@,
    {
        self.rest
    }

    /// The next `count` bytes, or an error where fewer remain.
    pub fn take(&mut self, count: usize) -> (bytes: Result<&'a [u8], TransportError>)
        ensures
            next_take(old(self)@, count as nat) == (match bytes {
                Ok(bytes) => Ok(bytes@),
                Err(error) => Err(error@),
            }, final(self)@),
    {
        if count > self.rest.len() {
            return Err(protocol_error("a field that runs past the message"));
        }
        let bytes: &'a [u8] = slice_subrange(self.rest, 0, count);
        self.rest = slice_subrange(self.rest, count, self.rest.len());
        Ok(bytes)
    }

    /// Past the next `count` bytes, or an error where fewer remain.
    pub fn skip(&mut self, count: usize) -> (past: Result<(), TransportError>)
        ensures
            next_skip(old(self)@, count as nat) == (error::outcome(past), final(self)@),
    {
        self.take(count)?;
        Ok(())
    }

    /// The next byte, or an error where nothing remains.
    pub fn byte(&mut self) -> (byte: Result<u8, TransportError>)
        ensures
            next_byte(old(self)@) == (error::outcome(byte), final(self)@),
    {
        let b: &[u8] = self.take(1)?;
        Ok(b[0])
    }

    /// The next little-endian u16, or an error where fewer than two bytes
    /// remain.
    pub fn u16(&mut self) -> (n: Result<u16, TransportError>)
        ensures
            next_u16(old(self)@) == (error::outcome(n), final(self)@),
    {
        let b: &[u8] = self.take(2)?;
        Ok(b[0] as u16 + 0x100 * b[1] as u16)
    }

    /// The next big-endian u16, which the pre-login's table uses alone, or
    /// an error where fewer than two bytes remain.
    pub fn u16_be(&mut self) -> (n: Result<u16, TransportError>)
        ensures
            next_u16_be(old(self)@) == (error::outcome(n), final(self)@),
    {
        let b: &[u8] = self.take(2)?;
        Ok(0x100 * b[0] as u16 + b[1] as u16)
    }

    /// The next little-endian u32, or an error where fewer than four bytes
    /// remain.
    pub fn u32(&mut self) -> (n: Result<u32, TransportError>)
        ensures
            next_u32(old(self)@) == (error::outcome(n), final(self)@),
    {
        let b: &[u8] = self.take(4)?;
        Ok(b[0] as u32 + 0x100 * b[1] as u32 + 0x1_0000 * b[2] as u32 + 0x100_0000 * b[3] as u32)
    }

    /// The next big-endian u32, which the login acknowledgement's version
    /// uses alone, or an error where fewer than four bytes remain.
    pub fn u32_be(&mut self) -> (n: Result<u32, TransportError>)
        ensures
            next_u32_be(old(self)@) == (error::outcome(n), final(self)@),
    {
        let b: &[u8] = self.take(4)?;
        Ok(0x100_0000 * b[0] as u32 + 0x1_0000 * b[1] as u32 + 0x100 * b[2] as u32 + b[3] as u32)
    }

    /// The next little-endian i32, or an error where fewer than four bytes
    /// remain.
    pub fn i32(&mut self) -> (n: Result<i32, TransportError>)
        ensures
            next_i32(old(self)@) == (error::outcome(n), final(self)@),
    {
        let n: u32 = self.u32()?;
        if n < 0x8000_0000 {
            Ok(n as i32)
        } else {
            Ok((n as i64 - 0x1_0000_0000) as i32)
        }
    }

    /// The next little-endian u64, or an error where fewer than eight bytes
    /// remain.
    pub fn u64(&mut self) -> (n: Result<u64, TransportError>)
        ensures
            next_u64(old(self)@) == (error::outcome(n), final(self)@),
    {
        let b: &[u8] = self.take(8)?;
        let low: u32 = b[0] as u32 + 0x100 * b[1] as u32 + 0x1_0000 * b[2] as u32 + 0x100_0000
            * b[3] as u32;
        let high: u32 = b[4] as u32 + 0x100 * b[5] as u32 + 0x1_0000 * b[6] as u32 + 0x100_0000
            * b[7] as u32;
        Ok(low as u64 + 0x1_0000_0000 * high as u64)
    }

    /// The next `chars` characters of UCS-2 as text, or an error where fewer
    /// than twice `chars` bytes remain.
    pub fn ucs2(&mut self, chars: usize) -> (text: Result<String, TransportError>)
        ensures
            next_ucs2(old(self)@, chars as nat) == (error::outcome(text), final(self)@),
    {
        if chars > self.rest.len() / 2 {
            return Err(protocol_error("a field that runs past the message"));
        }
        let bytes: &[u8] = self.take(2 * chars)?;
        Ok(from_ucs2(bytes))
    }

    /// The next `B_VARCHAR`: a byte counting characters, then UCS-2; an error
    /// where the text runs past the message.
    pub fn b_varchar(&mut self) -> (text: Result<String, TransportError>)
        ensures
            next_b_varchar(old(self)@) == (error::outcome(text), final(self)@),
    {
        let chars: u8 = self.byte()?;
        self.ucs2(chars as usize)
    }

    /// The next `US_VARCHAR`: a u16 counting characters, then UCS-2; an error
    /// where the text runs past the message.
    pub fn us_varchar(&mut self) -> (text: Result<String, TransportError>)
        ensures
            next_us_varchar(old(self)@) == (error::outcome(text), final(self)@),
    {
        let chars: u16 = self.u16()?;
        self.ucs2(chars as usize)
    }
}

// What was written reads back, ahead of whatever follows it.

/// A byte reads back.
pub proof fn lemma_byte_reads_back(n: u8, rest: Seq<u8>)
    ensures
        next_byte(seq![n] + rest) == (Ok::<u8, Fault>(n), rest),
{
    assert((seq![n] + rest).skip(1) =~= rest);
}

/// A u16 reads back, in either order of its bytes.
pub proof fn lemma_u16_reads_back(n: u16, rest: Seq<u8>)
    ensures
        next_u16(le16(n) + rest) == (Ok::<u16, Fault>(n), rest),
        next_u16_be(be16(n) + rest) == (Ok::<u16, Fault>(n), rest),
{
    assert((le16(n) + rest).skip(2) =~= rest);
    assert((be16(n) + rest).skip(2) =~= rest);
}

/// The bytes of a u32 add up to it.
proof fn lemma_u32_bytes(n: u32)
    ensures
        n == n % 256 + 0x100 * (n / 0x100 % 256) + 0x1_0000 * (n / 0x1_0000 % 256) + 0x100_0000 * (n
            / 0x100_0000),
{
    let x = n / 0x100;
    let y = n / 0x1_0000;
    assert(x / 0x100 == y);
    assert(y / 0x100 == n / 0x100_0000);
}

/// A u32 reads back, in either order of its bytes.
pub proof fn lemma_u32_reads_back(n: u32, rest: Seq<u8>)
    ensures
        next_u32(le32(n) + rest) == (Ok::<u32, Fault>(n), rest),
        next_u32_be(be32(n) + rest) == (Ok::<u32, Fault>(n), rest),
{
    lemma_u32_bytes(n);
    assert((le32(n) + rest).skip(4) =~= rest);
    assert((be32(n) + rest).skip(4) =~= rest);
}

/// An i32 reads back.
pub proof fn lemma_i32_reads_back(n: i32, rest: Seq<u8>)
    ensures
        next_i32(le_i32(n) + rest) == (Ok::<i32, Fault>(n), rest),
{
    lemma_u32_reads_back(twos_complement(n as int, 0x1_0000_0000) as u32, rest);
}

/// A u64 reads back.
pub proof fn lemma_u64_reads_back(n: u64, rest: Seq<u8>)
    ensures
        next_u64(le64(n) + rest) == (Ok::<u64, Fault>(n), rest),
{
    let low = (n % 0x1_0000_0000) as u32;
    let high = (n / 0x1_0000_0000) as u32;
    lemma_u32_reads_back(low, le32(high) + rest);
    lemma_u32_reads_back(high, rest);
    assert(le64(n) + rest =~= le32(low) + (le32(high) + rest));
    assert((le64(n) + rest).skip(4) =~= le32(high) + rest);
    assert((le64(n) + rest).skip(8) =~= rest);
}

/// Counted text reads back, cut at what the count can say.
pub proof fn lemma_varchar_reads_back(text: Seq<char>, rest: Seq<u8>)
    ensures
        next_b_varchar(b_varchar_bytes(text) + rest) == (
            Ok::<Seq<char>, Fault>(cut_text(text, 0xFF)),
            rest,
        ),
        next_us_varchar(us_varchar_bytes(text) + rest) == (
            Ok::<Seq<char>, Fault>(cut_text(text, 0xFFFF)),
            rest,
        ),
{
    let short = cut(text::utf16(text), 0xFF);
    let bytes = text::unit_bytes(short);
    text::lemma_unit_bytes_read_back(short);
    lemma_byte_reads_back(short.len() as u8, bytes + rest);
    assert(b_varchar_bytes(text) + rest =~= seq![short.len() as u8] + (bytes + rest));
    assert((bytes + rest).take(bytes.len() as int) =~= bytes);
    assert((bytes + rest).skip(bytes.len() as int) =~= rest);

    let long = cut(text::utf16(text), 0xFFFF);
    let bytes = text::unit_bytes(long);
    text::lemma_unit_bytes_read_back(long);
    lemma_u16_reads_back(long.len() as u16, bytes + rest);
    assert(us_varchar_bytes(text) + rest =~= le16(long.len() as u16) + (bytes + rest));
    assert((bytes + rest).take(bytes.len() as int) =~= bytes);
    assert((bytes + rest).skip(bytes.len() as int) =~= rest);
}

/// Bytes taken by their count are those bytes.
pub proof fn lemma_take_reads_back(bytes: Seq<u8>, rest: Seq<u8>)
    ensures
        next_take(bytes + rest, bytes.len()) == (Ok::<Seq<u8>, Fault>(bytes), rest),
{
    assert((bytes + rest).take(bytes.len() as int) =~= bytes);
    assert((bytes + rest).skip(bytes.len() as int) =~= rest);
}

// Packets and messages.

/// One packet: the header, then `payload`.
pub open spec fn packet_bytes(kind: u8, status: u8, payload: Seq<u8>, id: u8) -> Seq<u8> {
    let length = if 8 + payload.len() <= 0xFFFF {
        (8 + payload.len()) as u16
    } else {
        0xFFFFu16
    };
    seq![kind, status] + be16(length) + seq![0u8, 0u8, id, 0u8] + payload
}

/// `payload` in packets of `kind` with room for `room` bytes each, the ids
/// counted from `index`, the last marked end-of-message.
pub open spec fn packets_from(kind: u8, payload: Seq<u8>, room: nat, index: nat) -> Seq<u8>
    decreases payload.len(),
{
    if payload.len() <= room || room == 0 {
        packet_bytes(kind, END_OF_MESSAGE, payload, (index % 256) as u8)
    } else {
        packet_bytes(kind, 0, payload.take(room as int), (index % 256) as u8) + packets_from(
            kind,
            payload.skip(room as int),
            room,
            index + 1,
        )
    }
}

/// The payload a packet of at most `packet_size` bytes has room for, the
/// size held to what the protocol allows.
pub open spec fn packet_room(packet_size: u16) -> nat {
    if packet_size < MIN_PACKET_SIZE {
        (MIN_PACKET_SIZE - HEADER_LENGTH) as nat
    } else if packet_size > MAX_PACKET_SIZE {
        (MAX_PACKET_SIZE - HEADER_LENGTH) as nat
    } else {
        (packet_size - HEADER_LENGTH) as nat
    }
}

/// `payload` as one message of `kind`, in packets of at most `packet_size`
/// bytes, header included, the size held to what the protocol allows.
pub open spec fn message_bytes(kind: u8, payload: Seq<u8>, packet_size: u16) -> Seq<u8> {
    packets_from(kind, payload, packet_room(packet_size), 0)
}

/// One packet: the header, then `payload`.
#[must_use]
pub fn packet(kind: u8, status: u8, payload: &[u8], id: u8) -> (out: Vec<u8>)
    ensures
        out@ == packet_bytes(kind, status, payload@, id),
{
    let mut out: Vec<u8> = Vec::new();
    out.push(kind);
    out.push(status);
    let length: u16 = if payload.len() <= 0xFFFF - HEADER_LENGTH {
        (HEADER_LENGTH + payload.len()) as u16
    } else {
        0xFFFF
    };
    push_u16_be(&mut out, length);
    push_u16_be(&mut out, 0);  // SPID
    out.push(id);
    out.push(0);  // window
    push_bytes(&mut out, payload);
    assert(out@ =~= packet_bytes(kind, status, payload@, id));
    out
}

/// `size` held to what the protocol allows.
#[must_use]
pub fn allowed_packet_size(size: u16) -> (allowed: u16)
    ensures
        MIN_PACKET_SIZE <= allowed <= MAX_PACKET_SIZE,
        MIN_PACKET_SIZE <= size <= MAX_PACKET_SIZE ==> allowed == size,
        size < MIN_PACKET_SIZE ==> allowed == MIN_PACKET_SIZE,
        size > MAX_PACKET_SIZE ==> allowed == MAX_PACKET_SIZE,
{
    if size < MIN_PACKET_SIZE {
        MIN_PACKET_SIZE
    } else if size > MAX_PACKET_SIZE {
        MAX_PACKET_SIZE
    } else {
        size
    }
}

/// `payload` as one message of `kind`, in packets of at most `packet_size`
/// bytes header included, the last marked end-of-message. The size is held to
/// what the protocol allows, [`MIN_PACKET_SIZE`] to [`MAX_PACKET_SIZE`].
#[must_use]
pub fn packets(kind: u8, payload: &[u8], packet_size: u16) -> (out: Vec<u8>)
    ensures
        out@ == message_bytes(kind, payload@, packet_size),
{
    let room: usize = allowed_packet_size(packet_size) as usize - HEADER_LENGTH;
    let mut out: Vec<u8> = Vec::new();
    let mut rest: &[u8] = payload;
    let mut id: u8 = 0;
    let ghost mut index: nat = 0;
    assert(out@ + packets_from(kind, rest@, room as nat, 0) =~= packets_from(
        kind,
        rest@,
        room as nat,
        0,
    ));
    while rest.len() > room
        invariant
            504 <= room,
            id as nat == index % 256,
            out@ + packets_from(kind, rest@, room as nat, index) == packets_from(
                kind,
                payload@,
                room as nat,
                0,
            ),
        decreases rest.len(),
    {
        let ghost before = out@;
        let ghost was = rest@;
        let chunk: &[u8] = slice_subrange(rest, 0, room);
        let one: Vec<u8> = packet(kind, 0, chunk, id);
        push_bytes(&mut out, one.as_slice());
        rest = slice_subrange(rest, room, rest.len());
        proof {
            let after = packets_from(kind, rest@, room as nat, index + 1);
            assert(out@ + after =~= before + (one@ + after));
            index = index + 1;
        }
        id = if id == 255 {
            0
        } else {
            id + 1
        };
    }
    let one: Vec<u8> = packet(kind, END_OF_MESSAGE, rest, id);
    push_bytes(&mut out, one.as_slice());
    out
}

/// True of a packet type the protocol has.
pub open spec fn packet_type(kind: u8) -> bool {
    seq![0x01u8, 0x02, 0x03, 0x04, 0x06, 0x07, 0x08, 0x0E, 0x10, 0x11, 0x12].contains(kind)
}

/// True when `kind` is a packet type the protocol has, this crate's four
/// and the rest of the table: RPC, attention, bulk load, federated
/// authentication, transaction manager, TLS.
#[must_use]
pub fn is_packet_type(kind: u8) -> (yes: bool)
    ensures
        yes == packet_type(kind),
{
    proof {
        let table = seq![0x01u8, 0x02, 0x03, 0x04, 0x06, 0x07, 0x08, 0x0E, 0x10, 0x11, 0x12];
        assert(table[0] == 0x01 && table[1] == 0x02 && table[2] == 0x03 && table[3] == 0x04
            && table[4] == 0x06 && table[5] == 0x07 && table[6] == 0x08 && table[7] == 0x0E
            && table[8] == 0x10 && table[9] == 0x11 && table[10] == 0x12);
    }
    kind == 0x01 || kind == 0x02 || kind == 0x03 || kind == 0x04 || kind == 0x06 || kind == 0x07
        || kind == 0x08 || kind == 0x0E || kind == 0x10 || kind == 0x11 || kind == 0x12
}

/// How many bytes follow a packet's `header`, in a message of `kind` of
/// which `had` bytes have arrived, or why the packet is refused.
pub open spec fn packet_body(kind: Option<u8>, had: nat, header: Seq<u8>) -> Result<nat, Fault> {
    let length = be16_value(header.skip(2)) as nat;
    if kind is None && !packet_type(header[0]) {
        Err(
            error::fault(
                number::hex_name(header[0])
                    + " is not a packet type; this is not the protocol"@,
            ),
        )
    } else if kind is Some && kind != Some(header[0]) {
        Err(error::fault("a packet of another type mid-message"@))
    } else if length > MAX_PACKET_SIZE {
        Err(error::fault("a packet longer than the protocol allows"@))
    } else if length < 8 {
        Err(error::fault("a packet shorter than its header"@))
    } else if had + length - 8 > MAX_MESSAGE {
        Err(error::fault("a message over what Xmip will read"@))
    } else {
        Ok((length - 8) as nat)
    }
}

/// True of a header's status that marks the last packet of a message.
pub open spec fn ends_message(status: u8) -> bool {
    status % 2 == 1
}

/// What has arrived of a message.
#[verifier::ext_equal]
pub struct Arriving {
    /// The type of its packets, once there is one.
    pub kind: Option<u8>,
    /// The packet under way is the last.
    pub last: bool,
    pub payload: Seq<u8>,
}

/// A message of which nothing has arrived.
pub open spec fn nothing_yet() -> Arriving {
    Arriving { kind: None, last: false, payload: Seq::empty() }
}

/// Puts a message together from the packets it arrives in.
pub struct MessageReader {
    kind: Option<u8>,
    last: bool,
    payload: Vec<u8>,
}

impl View for MessageReader {
    type V = Arriving;

    closed spec fn view(&self) -> Arriving {
        Arriving { kind: self.kind, last: self.last, payload: self.payload@ }
    }
}

impl MessageReader {
    /// A reader between messages.
    #[must_use]
    pub fn new() -> (reader: Self)
        ensures
            reader@ == nothing_yet(),
    {
        MessageReader { kind: None, last: false, payload: Vec::new() }
    }

    /// The peer closed where a packet would begin: nothing is wrong between
    /// messages, and mid-message it is an error.
    pub fn closed(&self) -> (done: Result<(), TransportError>)
        ensures
            error::outcome(done) == (if self@.kind is None {
                Ok::<(), Fault>(())
            } else {
                Err(error::fault("the peer closed mid-message"@))
            }),
    {
        match self.kind {
            None => Ok(()),
            Some(_) => Err(protocol_error("the peer closed mid-message")),
        }
    }

    /// A packet's header arrived: the length of the body to read, or an
    /// error where the packet does not belong. A reader that refused a
    /// header is as it was.
    pub fn header(&mut self, header: &[u8; 8]) -> (body: Result<usize, TransportError>)
        ensures
            match packet_body(old(self)@.kind, old(self)@.payload.len(), header@) {
                Ok(length) => {
                    &&& body is Ok
                    &&& body->Ok_0 == length
                    &&& final(self)@ == (Arriving {
                        kind: Some(header@[0]),
                        last: ends_message(header@[1]),
                        payload: old(self)@.payload,
                    })
                },
                Err(fault) => {
                    &&& body is Err
                    &&& body->Err_0@ == fault
                    &&& final(self)@ == old(self)@
                },
            },
    {
        let kind: u8 = header[0];
        match self.kind {
            None => {
                if !is_packet_type(kind) {
                    let mut message: String = number::hex_name_text(kind);
                    message.append(" is not a packet type; this is not the protocol");
                    return Err(protocol_error(message.as_str()));
                }
            },
            Some(k) => {
                if k != kind {
                    return Err(protocol_error("a packet of another type mid-message"));
                }
            },
        }
        let length: usize = 0x100 * header[2] as usize + header[3] as usize;
        if length > MAX_PACKET_SIZE as usize {
            return Err(protocol_error("a packet longer than the protocol allows"));
        }
        if length < HEADER_LENGTH {
            return Err(protocol_error("a packet shorter than its header"));
        }
        let body: usize = length - HEADER_LENGTH;
        if self.payload.len() > MAX_MESSAGE || self.payload.len() + body > MAX_MESSAGE {
            return Err(protocol_error("a message over what Xmip will read"));
        }
        self.kind = Some(kind);
        self.last = header[1] % 2 == 1;
        Ok(body)
    }

    /// A packet's body arrived: the message, where this was its last packet,
    /// the reader then being between messages again.
    pub fn body(&mut self, body: &[u8]) -> (message: Option<(u8, Vec<u8>)>)
        ensures
            match old(self)@.kind {
                Some(kind) if old(self)@.last => {
                    &&& message matches Some((k, whole))
                    &&& k == kind
                    &&& whole@ == old(self)@.payload + body@
                    &&& final(self)@ == nothing_yet()
                },
                _ => {
                    &&& message is None
                    &&& final(self)@ == (Arriving {
                        payload: old(self)@.payload + body@,
                        ..old(self)@
                    })
                },
            },
    {
        push_bytes(&mut self.payload, body);
        match self.kind {
            Some(kind) => {
                if self.last {
                    let mut whole: Vec<u8> = Vec::new();
                    std::mem::swap(&mut whole, &mut self.payload);
                    self.kind = None;
                    self.last = false;
                    Some((kind, whole))
                } else {
                    None
                }
            },
            None => None,
        }
    }
}

/// What reading a message from `s` comes to, after packets of `kind` that
/// brought `had`: the type and the payload of every packet up to the one
/// marked end-of-message, or nothing when `s` ends between messages.
pub open spec fn next_message(kind: Option<u8>, had: Seq<u8>, s: Seq<u8>) -> Reading<
    Option<(u8, Seq<u8>)>,
>
    decreases s.len(),
{
    if s.len() == 0 {
        if kind is None {
            (Ok(None), s)
        } else {
            (Err(error::fault("the peer closed mid-message"@)), s)
        }
    } else if s.len() < 8 {
        (Err(past_the_message()), s)
    } else {
        match packet_body(kind, had.len(), s.take(8)) {
            Err(fault) => (Err(fault), s.skip(8)),
            Ok(length) => if s.len() < 8 + length {
                (Err(past_the_message()), s.skip(8))
            } else {
                let whole = had + s.skip(8).take(length as int);
                let rest = s.skip(8).skip(length as int);
                if ends_message(s[1]) {
                    (Ok(Some((s[0], whole))), rest)
                } else {
                    next_message(Some(s[0]), whole, rest)
                }
            },
        }
    }
}

/// One whole message: its type and the payload of every packet up to the
/// one marked end-of-message, or `None` when the bytes end between
/// messages. An error where a packet is shorter than its header or longer
/// than the protocol allows, is of no type the protocol has or changes type
/// mid-message, where the message is over [`MAX_MESSAGE`], and where the
/// bytes end mid-message.
pub fn read_message(cursor: &mut Cursor<'_>) -> (message: Result<
    Option<(u8, Vec<u8>)>,
    TransportError,
>)
    ensures
        next_message(None, Seq::empty(), old(cursor)@) == (error::outcome(message), final(cursor)@),
{
    let mut reader: MessageReader = MessageReader::new();
    loop
        invariant
            !reader@.last || reader@.kind is None,
            next_message(reader@.kind, reader@.payload, cursor@) == next_message(
                None,
                Seq::empty(),
                old(cursor)@,
            ),
        decreases cursor@.len(),
    {
        let ghost s = cursor@;
        if cursor.is_empty() {
            reader.closed()?;
            return Ok(None);
        }
        let taken: &[u8] = cursor.take(HEADER_LENGTH)?;
        let header: [u8; 8] = [
            taken[0],
            taken[1],
            taken[2],
            taken[3],
            taken[4],
            taken[5],
            taken[6],
            taken[7],
        ];
        assert(header@ =~= s.take(8));
        let length: usize = reader.header(&header)?;
        let body: &[u8] = cursor.take(length)?;
        let done: Option<(u8, Vec<u8>)> = reader.body(body);
        proof {
            broadcast use error::lemma_deep_bytes;

        }
        if done.is_some() {
            return Ok(done);
        }
    }
}

/// A packet's header says what it was written with, and its payload and
/// whatever follows stand behind it.
proof fn lemma_packet_header(kind: u8, status: u8, payload: Seq<u8>, id: u8, rest: Seq<u8>)
    requires
        payload.len() + 8 <= MAX_PACKET_SIZE,
    ensures
        ({
            let s = packet_bytes(kind, status, payload, id) + rest;
            &&& s.len() == 8 + payload.len() + rest.len()
            &&& s[0] == kind
            &&& s[1] == status
            &&& be16_value(s.take(8).skip(2)) == 8 + payload.len()
            &&& s.skip(8).take(payload.len() as int) == payload
            &&& s.skip(8).skip(payload.len() as int) == rest
        }),
{
    let s = packet_bytes(kind, status, payload, id) + rest;
    let length = (8 + payload.len()) as u16;
    lemma_u16_reads_back(length, Seq::empty());
    assert(s.take(8).skip(2)[0] == be16(length)[0]);
    assert(s.take(8).skip(2)[1] == be16(length)[1]);
    assert(s.skip(8).take(payload.len() as int) =~= payload);
    assert(s.skip(8).skip(payload.len() as int) =~= rest);
}

/// The packets of one payload put together again, after packets that
/// brought `had`.
#[verifier::spinoff_prover]
proof fn lemma_packets_read_back(
    kind: u8,
    payload: Seq<u8>,
    room: nat,
    index: nat,
    so_far: Option<u8>,
    had: Seq<u8>,
    rest: Seq<u8>,
)
    requires
        0 < room <= MAX_PACKET_SIZE - 8,
        so_far == Some(kind) || (so_far is None && packet_type(kind)),
        had.len() + payload.len() <= MAX_MESSAGE,
    ensures
        next_message(so_far, had, packets_from(kind, payload, room, index) + rest) == (
            Ok::<Option<(u8, Seq<u8>)>, Fault>(Some((kind, had + payload))),
            rest,
        ),
    decreases payload.len(),
{
    let id = (index % 256) as u8;
    if payload.len() <= room {
        lemma_last_packet_reads_back(kind, payload, id, so_far, had, rest);
    } else {
        let chunk = payload.take(room as int);
        let others = payload.skip(room as int);
        let behind = packets_from(kind, others, room, index + 1) + rest;
        assert(packets_from(kind, payload, room, index) + rest =~= packet_bytes(kind, 0, chunk, id)
            + behind);
        lemma_packet_reads_back(kind, chunk, id, so_far, had, behind);
        lemma_packets_read_back(kind, others, room, index + 1, Some(kind), had + chunk, rest);
        assert(had + chunk + others =~= had + payload);
    }
}

/// The last packet of a message ends it.
#[verifier::spinoff_prover]
proof fn lemma_last_packet_reads_back(
    kind: u8,
    chunk: Seq<u8>,
    id: u8,
    so_far: Option<u8>,
    had: Seq<u8>,
    rest: Seq<u8>,
)
    requires
        chunk.len() + 8 <= MAX_PACKET_SIZE,
        so_far == Some(kind) || (so_far is None && packet_type(kind)),
        had.len() + chunk.len() <= MAX_MESSAGE,
    ensures
        next_message(so_far, had, packet_bytes(kind, END_OF_MESSAGE, chunk, id) + rest) == (
            Ok::<Option<(u8, Seq<u8>)>, Fault>(Some((kind, had + chunk))),
            rest,
        ),
{
    lemma_packet_header(kind, END_OF_MESSAGE, chunk, id, rest);
}

/// A packet that is not the last is put behind those before it.
#[verifier::spinoff_prover]
proof fn lemma_packet_reads_back(
    kind: u8,
    chunk: Seq<u8>,
    id: u8,
    so_far: Option<u8>,
    had: Seq<u8>,
    behind: Seq<u8>,
)
    requires
        chunk.len() + 8 <= MAX_PACKET_SIZE,
        so_far == Some(kind) || (so_far is None && packet_type(kind)),
        had.len() + chunk.len() <= MAX_MESSAGE,
    ensures
        next_message(so_far, had, packet_bytes(kind, 0, chunk, id) + behind) == next_message(
            Some(kind),
            had + chunk,
            behind,
        ),
{
    lemma_packet_header(kind, 0, chunk, id, behind);
}

/// A message split into packets reads back whole, whatever the packet size
/// and whatever follows it.
pub proof fn lemma_message_reads_back(kind: u8, payload: Seq<u8>, packet_size: u16, rest: Seq<u8>)
    requires
        packet_type(kind),
        payload.len() <= MAX_MESSAGE,
    ensures
        next_message(None, Seq::empty(), message_bytes(kind, payload, packet_size) + rest) == (
            Ok::<Option<(u8, Seq<u8>)>, Fault>(Some((kind, payload))),
            rest,
        ),
{
    lemma_packets_read_back(
        kind,
        payload,
        packet_room(packet_size),
        0,
        None,
        Seq::empty(),
        rest,
    );
    assert(Seq::<u8>::empty() + payload =~= payload);
}

/// A message that is read is of a type the protocol has, and no longer than
/// a message may be, whatever the bytes are.
pub proof fn lemma_message_is_allowed(kind: Option<u8>, had: Seq<u8>, s: Seq<u8>)
    requires
        kind matches Some(k) ==> packet_type(k),
        had.len() <= MAX_MESSAGE,
    ensures
        next_message(kind, had, s).0 matches Ok(Some((k, payload))) ==> packet_type(k)
            && payload.len() <= MAX_MESSAGE,
    decreases s.len(),
{
    if s.len() >= 8 {
        if let Ok(length) = packet_body(kind, had.len(), s.take(8)) {
            if s.len() >= 8 + length {
                let whole = had + s.skip(8).take(length as int);
                lemma_message_is_allowed(Some(s[0]), whole, s.skip(8).skip(length as int));
            }
        }
    }
}

} // verus!
