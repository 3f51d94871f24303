//! The column types this crate serves and reads, and one value of each on
//! the wire. SQL Server has thirty-odd types and a Stream needs three: an
//! integer to name a row, text to carry it, binary to carry it when it is
//! not text. So INTN, INT and BIGINT, BIT and BITN, NVARCHAR, VARCHAR and
//! VARBINARY are read, the (MAX) forms in their partially-length-prefixed
//! chunks, and every value comes out as text — an integer in decimal, a
//! bit as `0` or `1`, binary as the `0x` literal. A column of any other
//! type is refused by its type byte when its metadata arrives, and the
//! operator casts it in the query.

use vstd::arithmetic::div_mod::*;
use vstd::prelude::*;
use vstd::slice::slice_subrange;
use vstd::utf8::*;

use crate::binary;
use crate::error;
use crate::error::{protocol_error, Fault, TransportError};
use crate::number;
use crate::text;
use crate::wire;
use crate::wire::{Cursor, Reading};

verus! {

/// A nullable integer of one, two, four or eight bytes.
pub const INTN: u8 = 0x26;

/// A four-byte integer, never null.
pub const INT4: u8 = 0x38;

/// An eight-byte integer, never null.
pub const INT8: u8 = 0x7F;

/// One bit, never null.
pub const BIT: u8 = 0x32;

/// One bit, or null.
pub const BITN: u8 = 0x68;

/// UCS-2 text with a collation.
pub const NVARCHAR: u8 = 0xE7;

/// Single-byte text with a collation, read as UTF-8 regardless.
pub const BIGVARCHAR: u8 = 0xA7;

/// Bytes.
pub const BIGVARBINARY: u8 = 0xA5;

/// The length a `(MAX)` column declares, and a null short value carries.
pub const MAX: u16 = 0xFFFF;

/// A partially-length-prefixed null.
pub const PLP_NULL: u64 = 0xFFFF_FFFF_FFFF_FFFF;

/// A partially-length-prefixed value of length the server did not know.
pub const PLP_UNKNOWN: u64 = 0xFFFF_FFFF_FFFF_FFFE;

/// The most one chunk of a partially-length-prefixed value is written with.
pub const CHUNK: usize = 0xFFFF;

/// A column's type, with what its metadata declares.
#[derive(Clone, Copy, Debug, PartialEq, Eq)]
pub enum ColumnType {
    /// A nullable integer this wide.
    IntN(u8),
    Int,
    BigInt,
    Bit,
    BitN,
    /// Text up to this many bytes, or [`MAX`].
    NVarChar(u16),
    VarChar(u16),
    VarBinary(u16),
}

impl DeepView for ColumnType {
    type V = ColumnType;

    open spec fn deep_view(&self) -> ColumnType {
        *self
    }
}

/// One column of a result.
#[derive(Debug, PartialEq, Eq)]
pub struct Column {
    pub name: String,
    pub kind: ColumnType,
}

/// What a [`Column`] says.
#[verifier::ext_equal]
pub struct ColumnView {
    pub name: Seq<char>,
    pub kind: ColumnType,
}

impl View for Column {
    type V = ColumnView;

    open spec fn view(&self) -> ColumnView {
        ColumnView { name: self.name@, kind: self.kind }
    }
}

impl DeepView for Column {
    type V = ColumnView;

    open spec fn deep_view(&self) -> ColumnView {
        self@
    }
}

impl Clone for Column {
    fn clone(&self) -> (copy: Self)
        ensures
            copy == *self,
    {
        Column { name: self.name.clone(), kind: self.kind }
    }
}

impl Column {
    /// `name` of `kind`.
    #[must_use]
    pub fn new(name: &str, kind: ColumnType) -> (column: Self)
        ensures
            column@ == (ColumnView { name: name@, kind }),
    {
        Column { name: name.to_owned(), kind }
    }

    /// `name` as `NVARCHAR(MAX)`, which carries any text.
    #[must_use]
    pub fn text(name: &str) -> (column: Self)
        ensures
            column@ == (ColumnView { name: name@, kind: ColumnType::NVarChar(MAX) }),
    {
        Column::new(name, ColumnType::NVarChar(MAX))
    }
}

// The type a column declares.

/// No collation, which takes five bytes to say.
pub open spec fn no_collation() -> Seq<u8> {
    seq![0u8, 0, 0, 0, 0]
}

/// `kind` as the `TYPE_INFO` its metadata carries.
pub open spec fn type_info_bytes(kind: ColumnType) -> Seq<u8> {
    match kind {
        ColumnType::IntN(width) => seq![INTN, width],
        ColumnType::Int => seq![INT4],
        ColumnType::BigInt => seq![INT8],
        ColumnType::Bit => seq![BIT],
        ColumnType::BitN => seq![BITN, 1],
        ColumnType::NVarChar(max) => seq![NVARCHAR] + wire::le16(max) + no_collation(),
        ColumnType::VarChar(max) => seq![BIGVARCHAR] + wire::le16(max) + no_collation(),
        ColumnType::VarBinary(max) => seq![BIGVARBINARY] + wire::le16(max),
    }
}

/// The next u16 of `s`, and past the collation behind it.
pub open spec fn next_collated(s: Seq<u8>) -> Reading<u16> {
    wire::chain(
        wire::next_u16(s),
        |max: u16, rest: Seq<u8>|
            wire::chain(wire::next_skip(rest, 5), |u: (), rest: Seq<u8>| (Ok(max), rest)),
    )
}

/// The next `TYPE_INFO` of `s`.
pub open spec fn next_type_info(s: Seq<u8>) -> Reading<ColumnType> {
    wire::chain(
        wire::next_byte(s),
        |kind: u8, rest: Seq<u8>|
            {
                if kind == INTN {
                    wire::chain(
                        wire::next_byte(rest),
                        |width: u8, rest: Seq<u8>| (Ok(ColumnType::IntN(width)), rest),
                    )
                } else if kind == INT4 {
                    (Ok(ColumnType::Int), rest)
                } else if kind == INT8 {
                    (Ok(ColumnType::BigInt), rest)
                } else if kind == BIT {
                    (Ok(ColumnType::Bit), rest)
                } else if kind == BITN {
                    wire::chain(
                        wire::next_skip(rest, 1),
                        |u: (), rest: Seq<u8>| (Ok(ColumnType::BitN), rest),
                    )
                } else if kind == NVARCHAR {
                    wire::chain(
                        next_collated(rest),
                        |max: u16, rest: Seq<u8>| (Ok(ColumnType::NVarChar(max)), rest),
                    )
                } else if kind == BIGVARCHAR {
                    wire::chain(
                        next_collated(rest),
                        |max: u16, rest: Seq<u8>| (Ok(ColumnType::VarChar(max)), rest),
                    )
                } else if kind == BIGVARBINARY {
                    wire::chain(
                        wire::next_u16(rest),
                        |max: u16, rest: Seq<u8>| (Ok(ColumnType::VarBinary(max)), rest),
                    )
                } else {
                    (
                        Err(
                            error::fault(
                                "column type "@ + number::hex_name(kind)
                                    + " is not one this crate reads; cast it in the query"@,
                            ),
                        ),
                        rest,
                    )
                }
            },
    )
}

/// Appends `kind` as the `TYPE_INFO` its metadata carries.
pub fn write_type_info(out: &mut Vec<u8>, kind: ColumnType)
    ensures
        final(out)@ == old(out)@ + type_info_bytes(kind),
{
    match kind {
        ColumnType::IntN(width) => wire::push_bytes(out, [INTN, width].as_slice()),
        ColumnType::Int => out.push(INT4),
        ColumnType::BigInt => out.push(INT8),
        ColumnType::Bit => out.push(BIT),
        ColumnType::BitN => wire::push_bytes(out, [BITN, 1].as_slice()),
        ColumnType::NVarChar(max) => {
            out.push(NVARCHAR);
            wire::push_u16(out, max);
            wire::push_bytes(out, [0u8, 0, 0, 0, 0].as_slice());  // the collation, none
        },
        ColumnType::VarChar(max) => {
            out.push(BIGVARCHAR);
            wire::push_u16(out, max);
            wire::push_bytes(out, [0u8, 0, 0, 0, 0].as_slice());
        },
        ColumnType::VarBinary(max) => {
            out.push(BIGVARBINARY);
            wire::push_u16(out, max);
        },
    }
    assert(out@ =~= old(out)@ + type_info_bytes(kind));
}

/// The next u16, and past the collation behind it.
fn collated(cursor: &mut Cursor<'_>) -> (max: Result<u16, TransportError>)
    ensures
        next_collated(old(cursor)@) == (error::outcome(max), final(cursor)@),
{
    let max: u16 = cursor.u16()?;
    cursor.skip(5)?;
    Ok(max)
}

/// The type a `TYPE_INFO` declares; an error for a type this crate does not
/// read, and where the metadata breaks off.
pub fn read_type_info(cursor: &mut Cursor<'_>) -> (kind: Result<ColumnType, TransportError>)
    ensures
        next_type_info(old(cursor)@) == (error::outcome(kind), final(cursor)@),
{
    let kind: u8 = cursor.byte()?;
    if kind == INTN {
        Ok(ColumnType::IntN(cursor.byte()?))
    } else if kind == INT4 {
        Ok(ColumnType::Int)
    } else if kind == INT8 {
        Ok(ColumnType::BigInt)
    } else if kind == BIT {
        Ok(ColumnType::Bit)
    } else if kind == BITN {
        cursor.skip(1)?;
        Ok(ColumnType::BitN)
    } else if kind == NVARCHAR {
        Ok(ColumnType::NVarChar(collated(cursor)?))
    } else if kind == BIGVARCHAR {
        Ok(ColumnType::VarChar(collated(cursor)?))
    } else if kind == BIGVARBINARY {
        Ok(ColumnType::VarBinary(cursor.u16()?))
    } else {
        let mut message: String = "column type ".to_owned();
        message.append(number::hex_name_text(kind).as_str());
        message.append(" is not one this crate reads; cast it in the query");
        Err(protocol_error(message.as_str()))
    }
}

/// A column's type reads back as it was declared.
pub proof fn lemma_type_info_reads_back(kind: ColumnType, rest: Seq<u8>)
    ensures
        next_type_info(type_info_bytes(kind) + rest) == (Ok::<ColumnType, Fault>(kind), rest),
{
    let s = type_info_bytes(kind) + rest;
    match kind {
        ColumnType::IntN(width) => {
            assert(s.skip(1) =~= seq![width] + rest);
            wire::lemma_byte_reads_back(width, rest);
        },
        ColumnType::BitN => {
            assert(s.skip(1).skip(1) =~= rest);
        },
        ColumnType::NVarChar(max) | ColumnType::VarChar(max) => {
            assert(s.skip(1) =~= wire::le16(max) + (no_collation() + rest));
            wire::lemma_u16_reads_back(max, no_collation() + rest);
            assert((no_collation() + rest).skip(5) =~= rest);
        },
        ColumnType::VarBinary(max) => {
            assert(s.skip(1) =~= wire::le16(max) + rest);
            wire::lemma_u16_reads_back(max, rest);
        },
        _ => {
            assert(s.skip(1) =~= rest);
        },
    }
}

// Values of variable length.

/// The bytes of a value, or null.
pub open spec fn bytes_view(bytes: Option<&[u8]>) -> Option<Seq<u8>> {
    match bytes {
        Some(bytes) => Some(bytes@),
        None => None,
    }
}

/// `bytes` in chunks of at most [`CHUNK`], each behind a u32 length.
pub open spec fn plp_chunks(bytes: Seq<u8>) -> Seq<u8>
    decreases bytes.len(),
{
    if bytes.len() == 0 {
        Seq::empty()
    } else if bytes.len() <= CHUNK {
        wire::le32(bytes.len() as u32) + bytes
    } else {
        wire::le32(CHUNK as u32) + bytes.take(CHUNK as int) + plp_chunks(bytes.skip(CHUNK as int))
    }
}

/// `bytes` partially length-prefixed: the total, then the chunks, then a
/// zero; or null.
pub open spec fn plp_bytes(bytes: Option<Seq<u8>>) -> Seq<u8> {
    match bytes {
        None => wire::le64(PLP_NULL),
        Some(bytes) => wire::le64(bytes.len() as u64) + plp_chunks(bytes) + wire::le32(0),
    }
}

/// The chunks at the start of `s`, up to the zero that ends them, behind the
/// bytes `had` already.
pub open spec fn next_chunks(had: Seq<u8>, s: Seq<u8>) -> Reading<Seq<u8>>
    decreases s.len(),
{
    if s.len() < 4 {
        (Err(wire::past_the_message()), s)
    } else {
        let length = wire::le32_value(s) as int;
        let rest = s.skip(4);
        if length == 0 {
            (Ok(had), rest)
        } else if length > rest.len() {
            (Err(wire::past_the_message()), rest)
        } else {
            next_chunks(had + rest.take(length), rest.skip(length))
        }
    }
}

/// The next partially-length-prefixed value of `s`, or null.
pub open spec fn next_plp(s: Seq<u8>) -> Reading<Option<Seq<u8>>> {
    wire::chain(
        wire::next_u64(s),
        |total: u64, rest: Seq<u8>|
            {
                if total == PLP_NULL {
                    (Ok(None), rest)
                } else {
                    wire::chain(
                        next_chunks(Seq::empty(), rest),
                        |bytes: Seq<u8>, rest: Seq<u8>|
                            {
                                if total != PLP_UNKNOWN && total != bytes.len() {
                                    (
                                        Err(
                                            error::fault(
                                                "chunks that do not add up to their total"@,
                                            ),
                                        ),
                                        rest,
                                    )
                                } else {
                                    (Ok(Some(bytes)), rest)
                                }
                            },
                    )
                }
            },
    )
}

/// What a column declared `max` holds of a value's bytes: all of them where
/// it is `(MAX)`, and otherwise no more than a u16 length can say short of
/// [`MAX`], which says null.
pub open spec fn held(max: u16, bytes: Seq<u8>) -> Seq<u8> {
    if max == MAX {
        bytes
    } else {
        wire::cut(bytes, MAX - 1)
    }
}

/// A value of variable length: partially length-prefixed where the column is
/// `(MAX)`, behind a u16 length otherwise, with [`MAX`] for null alone: a
/// value is cut where its length would say that.
pub open spec fn var_bytes(max: u16, bytes: Option<Seq<u8>>) -> Seq<u8> {
    if max == MAX {
        plp_bytes(bytes)
    } else {
        match bytes {
            None => wire::le16(MAX),
            Some(bytes) => wire::le16(held(max, bytes).len() as u16) + held(max, bytes),
        }
    }
}

/// The next value of variable length of `s`, in a column declared `max`.
pub open spec fn next_var(s: Seq<u8>, max: u16) -> Reading<Option<Seq<u8>>> {
    if max == MAX {
        next_plp(s)
    } else {
        wire::chain(
            wire::next_u16(s),
            |length: u16, rest: Seq<u8>|
                {
                    if length == MAX {
                        (Ok(None), rest)
                    } else {
                        wire::chain(
                            wire::next_take(rest, length as nat),
                            |bytes: Seq<u8>, rest: Seq<u8>| (Ok(Some(bytes)), rest),
                        )
                    }
                },
        )
    }
}

/// Appends `bytes` partially length-prefixed: the total, then chunks each
/// behind a u32 length, then a zero.
pub fn write_plp(out: &mut Vec<u8>, bytes: Option<&[u8]>)
    ensures
        final(out)@ == old(out)@ + plp_bytes(bytes_view(bytes)),
{
    let bytes: &[u8] = match bytes {
        Some(bytes) => bytes,
        None => {
            wire::push_u64(out, PLP_NULL);
            return;
        },
    };
    wire::push_u64(out, bytes.len() as u64);
    let ghost start = out@;
    let mut rest: &[u8] = bytes;
    assert(start + plp_chunks(bytes@) =~= start + plp_chunks(rest@));
    while rest.len() > 0
        invariant
            out@ + plp_chunks(rest@) == start + plp_chunks(bytes@),
        decreases rest.len(),
    {
        let ghost before = out@;
        let ghost was = rest@;
        let length: usize = if rest.len() <= CHUNK {
            rest.len()
        } else {
            CHUNK
        };
        wire::push_u32(out, length as u32);
        wire::push_bytes(out, slice_subrange(rest, 0, length));
        rest = slice_subrange(rest, length, rest.len());
        proof {
            assert(was.skip(length as int) =~= rest@);
            if was.len() <= CHUNK {
                assert(was.take(length as int) =~= was);
                assert(rest@ =~= Seq::empty());
            }
            assert(out@ + plp_chunks(rest@) =~= before + plp_chunks(was));
        }
    }
    assert(rest@ =~= Seq::empty());
    assert(out@ + Seq::empty() =~= out@);
    wire::push_u32(out, 0);
    assert(out@ =~= old(out)@ + plp_bytes(Some(bytes@)));
}

/// The bytes of the chunks that follow, up to the zero that ends them; an
/// error where they break off.
fn chunks(cursor: &mut Cursor<'_>) -> (bytes: Result<Vec<u8>, TransportError>)
    ensures
        next_chunks(Seq::empty(), old(cursor)@) == (error::outcome(bytes), final(cursor)@),
{
    let mut out: Vec<u8> = Vec::new();
    loop
        invariant
            next_chunks(out@, cursor@) == next_chunks(Seq::empty(), old(cursor)@),
        decreases cursor@.len(),
    {
        let length: u32 = cursor.u32()?;
        if length == 0 {
            proof {
                error::lemma_deep_bytes(out);
            }
            return Ok(out);
        }
        let chunk: &[u8] = cursor.take(length as usize)?;
        wire::push_bytes(&mut out, chunk);
    }
}

/// The bytes a partially-length-prefixed value carries, or `None` where it is
/// null; an error where the chunks do not add up to the total or break off.
pub fn read_plp(cursor: &mut Cursor<'_>) -> (bytes: Result<Option<Vec<u8>>, TransportError>)
    ensures
        next_plp(old(cursor)@) == (error::outcome(bytes), final(cursor)@),
{
    broadcast use error::lemma_deep_bytes;

    let total: u64 = cursor.u64()?;
    if total == PLP_NULL {
        return Ok(None);
    }
    let out: Vec<u8> = chunks(cursor)?;
    if total != PLP_UNKNOWN && total != out.len() as u64 {
        return Err(protocol_error("chunks that do not add up to their total"));
    }
    Ok(Some(out))
}

/// Appends a value of variable length: partially length-prefixed where the
/// column is `(MAX)`, a u16 length with [`MAX`] for null otherwise. A value
/// whose length would say null, or more than a u16 can, is cut one short of
/// that.
fn write_bytes(out: &mut Vec<u8>, max: u16, bytes: Option<&[u8]>)
    ensures
        final(out)@ == old(out)@ + var_bytes(max, bytes_view(bytes)),
{
    if max == MAX {
        write_plp(out, bytes);
        return;
    }
    match bytes {
        None => wire::push_u16(out, MAX),
        Some(bytes) => {
            let length: usize = if bytes.len() < MAX as usize {
                bytes.len()
            } else {
                MAX as usize - 1
            };
            wire::push_u16(out, length as u16);
            wire::push_bytes(out, slice_subrange(bytes, 0, length));
            assert(out@ =~= old(out)@ + var_bytes(max, Some(bytes@)));
        },
    }
}

/// The next value of variable length in a column declared `max`.
fn read_bytes(cursor: &mut Cursor<'_>, max: u16) -> (bytes: Result<
    Option<Vec<u8>>,
    TransportError,
>)
    ensures
        next_var(old(cursor)@, max) == (error::outcome(bytes), final(cursor)@),
{
    broadcast use error::lemma_deep_bytes;

    if max == MAX {
        return read_plp(cursor);
    }
    let length: u16 = cursor.u16()?;
    if length == MAX {
        return Ok(None);
    }
    let bytes: &[u8] = cursor.take(length as usize)?;
    Ok(Some(vstd::slice::slice_to_vec(bytes)))
}

/// One chunk reads back, behind the bytes had already, and the reading goes
/// on behind it.
proof fn lemma_chunk_reads_back(had: Seq<u8>, chunk: Seq<u8>, behind: Seq<u8>)
    requires
        0 < chunk.len() <= CHUNK,
    ensures
        next_chunks(had, wire::le32(chunk.len() as u32) + (chunk + behind)) == next_chunks(
            had + chunk,
            behind,
        ),
{
    wire::lemma_u32_reads_back(chunk.len() as u32, chunk + behind);
    wire::lemma_take_reads_back(chunk, behind);
}

/// Chunks read back, behind the bytes had already, up to the zero behind
/// them.
proof fn lemma_chunks_read_back(had: Seq<u8>, bytes: Seq<u8>, rest: Seq<u8>)
    ensures
        next_chunks(had, plp_chunks(bytes) + (wire::le32(0) + rest)) == (
            Ok::<Seq<u8>, Fault>(had + bytes),
            rest,
        ),
    decreases bytes.len(),
{
    let end = wire::le32(0) + rest;
    if bytes.len() == 0 {
        wire::lemma_u32_reads_back(0, rest);
        assert(plp_chunks(bytes) + end =~= end);
        assert(had + bytes =~= had);
    } else if bytes.len() <= CHUNK {
        wire::lemma_u32_reads_back(0, rest);
        assert(plp_chunks(bytes) + end =~= wire::le32(bytes.len() as u32) + (bytes + end));
        lemma_chunk_reads_back(had, bytes, end);
    } else {
        let chunk = bytes.take(CHUNK as int);
        let others = bytes.skip(CHUNK as int);
        let behind = plp_chunks(others) + end;
        assert(plp_chunks(bytes) + end =~= wire::le32(CHUNK as u32) + (chunk + behind));
        lemma_chunk_reads_back(had, chunk, behind);
        lemma_chunks_read_back(had + chunk, others, rest);
        assert(had + chunk + others =~= had + bytes);
    }
}

/// A partially-length-prefixed value reads back, whatever its length, and so
/// does null.
pub proof fn lemma_plp_reads_back(bytes: Option<Seq<u8>>, rest: Seq<u8>)
    requires
        bytes matches Some(b) ==> b.len() < PLP_UNKNOWN,
    ensures
        next_plp(plp_bytes(bytes) + rest) == (Ok::<Option<Seq<u8>>, Fault>(bytes), rest),
{
    match bytes {
        None => wire::lemma_u64_reads_back(PLP_NULL, rest),
        Some(b) => {
            let behind = plp_chunks(b) + (wire::le32(0) + rest);
            assert(plp_bytes(bytes) + rest =~= wire::le64(b.len() as u64) + behind);
            wire::lemma_u64_reads_back(b.len() as u64, behind);
            lemma_chunks_read_back(Seq::empty(), b, rest);
            assert(Seq::empty() + b =~= b);
        },
    }
}

/// What a column declared `max` holds of a value, null being held as null.
pub open spec fn value_held(max: u16, bytes: Option<Seq<u8>>) -> Option<Seq<u8>> {
    match bytes {
        Some(bytes) => Some(held(max, bytes)),
        None => None,
    }
}

/// True of bytes whose number a `(MAX)` column can say, short of the two
/// numbers that say something else; any other column says what it holds.
pub open spec fn countable(max: u16, bytes: Seq<u8>) -> bool {
    max == MAX ==> bytes.len() < PLP_UNKNOWN
}

/// A value of variable length reads back as what its column holds of it, and
/// null as null.
pub proof fn lemma_var_reads_back(max: u16, bytes: Option<Seq<u8>>, rest: Seq<u8>)
    requires
        bytes matches Some(b) ==> countable(max, b),
    ensures
        next_var(var_bytes(max, bytes) + rest, max) == (
            Ok::<Option<Seq<u8>>, Fault>(value_held(max, bytes)),
            rest,
        ),
{
    if max == MAX {
        lemma_plp_reads_back(bytes, rest);
    } else {
        match bytes {
            None => wire::lemma_u16_reads_back(MAX, rest),
            Some(b) => {
                let kept = held(max, b);
                assert(var_bytes(max, bytes) + rest =~= wire::le16(kept.len() as u16) + (kept
                    + rest));
                wire::lemma_u16_reads_back(kept.len() as u16, kept + rest);
                wire::lemma_take_reads_back(kept, rest);
            },
        }
    }
}

/// In a column that is not `(MAX)`, null alone is written with the length
/// that says null, whatever the length of a value is.
pub proof fn lemma_null_alone_says_null(max: u16, bytes: Option<Seq<u8>>)
    requires
        max != MAX,
    ensures
        wire::le16_value(var_bytes(max, bytes)) == MAX <==> bytes is None,
{
    let length = match bytes {
        Some(b) => held(max, b).len() as u16,
        None => MAX,
    };
    wire::lemma_u16_reads_back(length, Seq::empty());
    assert(var_bytes(max, bytes)[0] == wire::le16(length)[0]);
    assert(var_bytes(max, bytes)[1] == wire::le16(length)[1]);
}

// Cells.

/// The integer that `text` spells, white space around it or not; zero where
/// it spells none.
pub open spec fn integer_of(text: Seq<char>) -> i64 {
    match number::i64_in(text::trimmed(text)) {
        Some(n) => n,
        None => 0,
    }
}

/// The integer that `value` spells, null spelling zero.
pub open spec fn integer_or_zero(value: Option<Seq<char>>) -> i64 {
    match value {
        Some(text) => integer_of(text),
        None => 0,
    }
}

/// `n` where four bytes can hold it, zero otherwise.
pub open spec fn as_i32(n: i64) -> i32 {
    if i32::MIN <= n <= i32::MAX {
        n as i32
    } else {
        0
    }
}

/// True of the text for a bit that is set, white space around it or not.
pub open spec fn is_truthy(value: Option<Seq<char>>) -> bool {
    match value {
        Some(text) => {
            ||| text::trimmed(text) == "1"@
            ||| text::trimmed(text) == "true"@
            ||| text::trimmed(text) == "True"@
            ||| text::trimmed(text) == "TRUE"@
        },
        None => false,
    }
}

/// A bit in a byte.
pub open spec fn bit_byte(bit: bool) -> u8 {
    if bit {
        1
    } else {
        0
    }
}

/// `bytes` that a value, or null, comes to.
pub open spec fn value_in(
    value: Option<Seq<char>>,
    bytes: spec_fn(Seq<char>) -> Seq<u8>,
) -> Option<Seq<u8>> {
    match value {
        Some(text) => Some(bytes(text)),
        None => None,
    }
}

/// `value` as one cell of `kind` in a row. A fixed-width type has no null,
/// so null is written as zero there.
pub open spec fn cell_bytes(kind: ColumnType, value: Option<Seq<char>>) -> Seq<u8> {
    match kind {
        ColumnType::IntN(width) => match value {
            None => seq![0u8],
            Some(text) => seq![width] + wire::le_i64(integer_of(text)).take(
                if width <= 8 {
                    width as int
                } else {
                    8
                },
            ),
        },
        ColumnType::Int => wire::le_i32(as_i32(integer_or_zero(value))),
        ColumnType::BigInt => wire::le_i64(integer_or_zero(value)),
        ColumnType::Bit => seq![bit_byte(is_truthy(value))],
        ColumnType::BitN => match value {
            None => seq![0u8],
            Some(_) => seq![1u8, bit_byte(is_truthy(value))],
        },
        ColumnType::NVarChar(max) => var_bytes(
            max,
            value_in(value, |text: Seq<char>| wire::ucs2_bytes(text)),
        ),
        ColumnType::VarChar(max) => var_bytes(
            max,
            value_in(value, |text: Seq<char>| encode_utf8(text)),
        ),
        ColumnType::VarBinary(max) => var_bytes(
            max,
            value_in(value, |text: Seq<char>| binary::value_bytes(text)),
        ),
    }
}

/// The signed integer in one, two, four or eight bytes, the lowest first.
pub open spec fn integer_in(bytes: Seq<u8>) -> int {
    if bytes.len() == 1 {
        wire::signed_value(bytes[0] as int, 0x100)
    } else if bytes.len() == 2 {
        wire::signed_value(wire::le16_value(bytes) as int, 0x1_0000)
    } else if bytes.len() == 4 {
        wire::signed_value(wire::le32_value(bytes) as int, 0x1_0000_0000)
    } else {
        wire::signed_value(wire::le64_value(bytes) as int, 0x1_0000_0000_0000_0000)
    }
}

/// The next nullable integer of `s`, in decimal.
pub open spec fn next_integer(s: Seq<u8>) -> Reading<Option<Seq<char>>> {
    wire::chain(
        wire::next_byte(s),
        |width: u8, rest: Seq<u8>|
            wire::chain(
                wire::next_take(rest, width as nat),
                |bytes: Seq<u8>, rest: Seq<u8>|
                    {
                        if width == 0 {
                            (Ok(None), rest)
                        } else if width == 1 || width == 2 || width == 4 || width == 8 {
                            (Ok(Some(number::decimal(integer_in(bytes)))), rest)
                        } else {
                            (
                                Err(
                                    error::fault(
                                        "an integer "@ + number::decimal(width as int)
                                            + " bytes wide"@,
                                    ),
                                ),
                                rest,
                            )
                        }
                    },
            ),
    )
}

/// A bit as `0` or `1`.
pub open spec fn bit_text(byte: u8) -> Seq<char> {
    number::decimal(
        if byte != 0 {
            1
        } else {
            0
        },
    )
}

/// The next bit of `s`.
pub open spec fn next_bit(s: Seq<u8>) -> Reading<Option<Seq<char>>> {
    wire::chain(
        wire::next_byte(s),
        |byte: u8, rest: Seq<u8>| (Ok(Some(bit_text(byte))), rest),
    )
}

/// The next value of variable length of `s`, as the text its bytes come to.
pub open spec fn next_text(
    s: Seq<u8>,
    max: u16,
    meaning: spec_fn(Seq<u8>) -> Seq<char>,
) -> Reading<Option<Seq<char>>> {
    wire::chain(
        next_var(s, max),
        |bytes: Option<Seq<u8>>, rest: Seq<u8>|
            match bytes {
                Some(bytes) => (Ok(Some(meaning(bytes))), rest),
                None => (Ok(None), rest),
            },
    )
}

/// The next cell of `kind` of `s` as text, or nothing where it is null.
pub open spec fn next_cell(s: Seq<u8>, kind: ColumnType) -> Reading<Option<Seq<char>>> {
    match kind {
        ColumnType::IntN(_) => next_integer(s),
        ColumnType::Int => wire::chain(
            wire::next_i32(s),
            |n: i32, rest: Seq<u8>| (Ok(Some(number::decimal(n as int))), rest),
        ),
        ColumnType::BigInt => wire::chain(
            wire::next_u64(s),
            |n: u64, rest: Seq<u8>|
                (
                    Ok(
                        Some(
                            number::decimal(wire::signed_value(n as int, 0x1_0000_0000_0000_0000)),
                        ),
                    ),
                    rest,
                ),
        ),
        ColumnType::Bit => next_bit(s),
        ColumnType::BitN => wire::chain(
            wire::next_byte(s),
            |length: u8, rest: Seq<u8>|
                if length == 0 {
                    (Ok(None), rest)
                } else {
                    next_bit(rest)
                },
        ),
        ColumnType::NVarChar(max) => next_text(s, max, |bytes: Seq<u8>| wire::ucs2_text(bytes)),
        ColumnType::VarChar(max) => next_text(s, max, |bytes: Seq<u8>| text::utf8_lossy(bytes)),
        ColumnType::VarBinary(max) => next_text(
            s,
            max,
            |bytes: Seq<u8>| binary::literal_of(bytes),
        ),
    }
}

/// The integer that `text` spells, white space around it or not; zero where
/// it spells none.
fn integer(text: &str) -> (n: i64)
    ensures
        n == integer_of(text@),
{
    let chars: Vec<char> = text::chars_of(text);
    match number::read_i64(text::trim(chars.as_slice())) {
        Some(n) => n,
        None => 0,
    }
}

/// True of the text for a bit that is set, white space around it or not.
fn truthy(value: Option<&str>) -> (yes: bool)
    ensures
        yes == is_truthy(value.deep_view()),
{
    match value {
        Some(text) => {
            let chars: Vec<char> = text::chars_of(text);
            let word: &[char] = text::trim(chars.as_slice());
            text::spells(word, "1") || text::spells(word, "true") || text::spells(word, "True")
                || text::spells(word, "TRUE")
        },
        None => false,
    }
}

/// Appends `value` as one cell of `kind` in a row. A fixed-width type has no
/// null, so `None` is written as zero there.
pub fn write_value(out: &mut Vec<u8>, kind: ColumnType, value: Option<&str>)
    ensures
        final(out)@ == old(out)@ + cell_bytes(kind, value.deep_view()),
{
    match kind {
        ColumnType::IntN(width) => match value {
            None => out.push(0),
            Some(text) => {
                out.push(width);
                let mut eight: Vec<u8> = Vec::new();
                wire::push_i64(&mut eight, integer(text));
                let length: usize = if width <= 8 {
                    width as usize
                } else {
                    8
                };
                assert(eight@ =~= wire::le_i64(integer_of(text@)));
                wire::push_bytes(out, slice_subrange(eight.as_slice(), 0, length));
            },
        },
        ColumnType::Int => {
            let n: i64 = match value {
                Some(text) => integer(text),
                None => 0,
            };
            let n: i32 = if -0x8000_0000 <= n && n <= 0x7FFF_FFFF {
                n as i32
            } else {
                0
            };
            wire::push_i32(out, n);
        },
        ColumnType::BigInt => {
            let n: i64 = match value {
                Some(text) => integer(text),
                None => 0,
            };
            wire::push_i64(out, n);
        },
        ColumnType::Bit => out.push(
            if truthy(value) {
                1
            } else {
                0
            },
        ),
        ColumnType::BitN => match value {
            None => out.push(0),
            Some(_) => {
                out.push(1);
                out.push(
                    if truthy(value) {
                        1
                    } else {
                        0
                    },
                );
            },
        },
        ColumnType::NVarChar(max) => match value {
            None => write_bytes(out, max, None),
            Some(text) => write_bytes(out, max, Some(wire::ucs2(text).as_slice())),
        },
        ColumnType::VarChar(max) => match value {
            None => write_bytes(out, max, None),
            Some(text) => write_bytes(out, max, Some(text.as_bytes())),
        },
        ColumnType::VarBinary(max) => match value {
            None => write_bytes(out, max, None),
            Some(text) => write_bytes(
                out,
                max,
                Some(binary::column_bytes(text.to_owned()).as_slice()),
            ),
        },
    }
    assert(out@ =~= old(out)@ + cell_bytes(kind, value.deep_view()));
}

/// The signed integer in eight bytes that were read as `n`.
fn signed(n: u64) -> (signed: i64)
    ensures
        signed == wire::signed_value(n as int, 0x1_0000_0000_0000_0000),
{
    if n < 0x8000_0000_0000_0000 {
        n as i64
    } else {
        (n as i128 - 0x1_0000_0000_0000_0000) as i64
    }
}

/// The next nullable integer, in decimal; an error where its width is not
/// one an integer has, or it breaks off.
fn read_integer(cursor: &mut Cursor<'_>) -> (value: Result<Option<String>, TransportError>)
    ensures
        next_integer(old(cursor)@) == (error::outcome(value), final(cursor)@),
{
    let width: u8 = cursor.byte()?;
    let b: &[u8] = cursor.take(width as usize)?;
    let n: i64 = if width == 0 {
        return Ok(None);
    } else if width == 1 {
        if b[0] < 0x80 {
            b[0] as i64
        } else {
            b[0] as i64 - 0x100
        }
    } else if width == 2 {
        let n: i64 = b[0] as i64 + 0x100 * b[1] as i64;
        if n < 0x8000 {
            n
        } else {
            n - 0x1_0000
        }
    } else if width == 4 {
        let mut inner: Cursor<'_> = Cursor::new(b);
        inner.i32()? as i64
    } else if width == 8 {
        let mut inner: Cursor<'_> = Cursor::new(b);
        signed(inner.u64()?)
    } else {
        let mut message: String = "an integer ".to_owned();
        message.append(number::unsigned_text(width as u64).as_str());
        message.append(" bytes wide");
        return Err(protocol_error(message.as_str()));
    };
    Ok(Some(number::signed_text(n)))
}

/// The next bit as `0` or `1`; an error where there is none.
fn read_bit(cursor: &mut Cursor<'_>) -> (value: Result<Option<String>, TransportError>)
    ensures
        next_bit(old(cursor)@) == (error::outcome(value), final(cursor)@),
{
    let byte: u8 = cursor.byte()?;
    Ok(
        Some(
            number::unsigned_text(
                if byte != 0 {
                    1
                } else {
                    0
                },
            ),
        ),
    )
}

/// One cell of `kind` as text, or `None` where it is null; an error for a
/// width the type does not have, or a value that breaks off.
pub fn read_value(cursor: &mut Cursor<'_>, kind: ColumnType) -> (value: Result<
    Option<String>,
    TransportError,
>)
    ensures
        next_cell(old(cursor)@, kind) == (error::outcome(value), final(cursor)@),
{
    broadcast use error::lemma_deep_bytes;

    match kind {
        ColumnType::IntN(_) => read_integer(cursor),
        ColumnType::Int => {
            let n: i32 = cursor.i32()?;
            Ok(Some(number::signed_text(n as i64)))
        },
        ColumnType::BigInt => {
            let n: u64 = cursor.u64()?;
            Ok(Some(number::signed_text(signed(n))))
        },
        ColumnType::Bit => read_bit(cursor),
        ColumnType::BitN => {
            let length: u8 = cursor.byte()?;
            if length == 0 {
                Ok(None)
            } else {
                read_bit(cursor)
            }
        },
        ColumnType::NVarChar(max) => match read_bytes(cursor, max)? {
            Some(bytes) => Ok(Some(wire::from_ucs2(bytes.as_slice()))),
            None => Ok(None),
        },
        ColumnType::VarChar(max) => match read_bytes(cursor, max)? {
            Some(bytes) => Ok(Some(text::lossy_utf8(bytes.as_slice()))),
            None => Ok(None),
        },
        ColumnType::VarBinary(max) => match read_bytes(cursor, max)? {
            Some(bytes) => Ok(Some(binary::hex_literal(bytes.as_slice()))),
            None => Ok(None),
        },
    }
}

/// `n` as it stands in a signed integer whose width holds `modulus` values.
pub open spec fn wrapped(n: int, modulus: int) -> int {
    wire::signed_value(wire::twos_complement(n, modulus), modulus)
}

/// How many values an integer `width` bytes wide has.
pub open spec fn width_modulus(width: u8) -> int {
    if width == 1 {
        0x100
    } else if width == 2 {
        0x1_0000
    } else if width == 4 {
        0x1_0000_0000
    } else {
        0x1_0000_0000_0000_0000
    }
}

/// What `value` is once it has been in a cell of `kind`: an integer in
/// decimal, held to the column's width; a bit as `0` or `1`; text as it was
/// and binary as the literal of its bytes, each as far as the column holds
/// it. Null stays null where the type has one and is zero where it does not.
pub open spec fn carried(kind: ColumnType, value: Option<Seq<char>>) -> Option<Seq<char>> {
    match kind {
        ColumnType::IntN(width) => match value {
            Some(text) if width > 0 => Some(
                number::decimal(wrapped(integer_of(text) as int, width_modulus(width))),
            ),
            _ => None,
        },
        ColumnType::Int => Some(number::decimal(as_i32(integer_or_zero(value)) as int)),
        ColumnType::BigInt => Some(number::decimal(integer_or_zero(value) as int)),
        ColumnType::Bit => Some(bit_text(bit_byte(is_truthy(value)))),
        ColumnType::BitN => match value {
            Some(_) => Some(bit_text(bit_byte(is_truthy(value)))),
            None => None,
        },
        ColumnType::NVarChar(max) => match value {
            Some(text) => Some(wire::ucs2_text(held(max, wire::ucs2_bytes(text)))),
            None => None,
        },
        ColumnType::VarChar(max) => match value {
            Some(text) => Some(text::utf8_lossy(held(max, encode_utf8(text)))),
            None => None,
        },
        ColumnType::VarBinary(max) => match value {
            Some(text) => Some(binary::literal_of(held(max, binary::value_bytes(text)))),
            None => None,
        },
    }
}

/// True of a value that a cell of `kind` carries: an integer column is as
/// wide as an integer can be, and a value's length can be said.
pub open spec fn carries(kind: ColumnType, value: Option<Seq<char>>) -> bool {
    match value {
        None => true,
        Some(text) => match kind {
            ColumnType::IntN(width) => width == 0 || width == 1 || width == 2 || width == 4 || width
                == 8,
            ColumnType::NVarChar(max) => countable(max, wire::ucs2_bytes(text)),
            ColumnType::VarChar(max) => countable(max, encode_utf8(text)),
            ColumnType::VarBinary(max) => countable(max, binary::value_bytes(text)),
            _ => true,
        },
    }
}

/// A number held to eight bytes and then to four is the number held to four.
proof fn lemma_held_twice(n: int)
    ensures
        n % 0x1_0000_0000_0000_0000 % 0x1_0000_0000 == n % 0x1_0000_0000,
{
    lemma_mod_mod(n, 0x1_0000_0000, 0x1_0000_0000);
}

/// The lowest bytes of eight are the lowest of the first four.
proof fn lemma_low_of_eight(m: u64, width: u8)
    requires
        width <= 4,
    ensures
        wire::le64(m).take(width as int) == wire::le32((m % 0x1_0000_0000) as u32).take(
            width as int,
        ),
{
    assert(wire::le64(m).take(width as int) =~= wire::le32((m % 0x1_0000_0000) as u32).take(
        width as int,
    ));
}

/// The first byte of the four that a number is held to.
#[verifier::spinoff_prover]
proof fn lemma_one_byte(n: int, low: u32)
    requires
        low == n % 0x1_0000_0000,
    ensures
        integer_in(wire::le32(low).take(1)) == wrapped(n, 0x100),
{
    lemma_mod_mod(n, 0x100, 0x100_0000);
    assert(wire::le32(low).take(1)[0] == low % 256);
}

/// The first two bytes of the four that a number is held to.
#[verifier::spinoff_prover]
proof fn lemma_two_bytes(n: int, low: u32)
    requires
        low == n % 0x1_0000_0000,
    ensures
        integer_in(wire::le32(low).take(2)) == wrapped(n, 0x1_0000),
{
    let bytes = wire::le32(low).take(2);
    lemma_mod_mod(n, 0x1_0000, 0x1_0000);
    assert(bytes[0] == low % 256 && bytes[1] == low / 0x100 % 256);
    assert(low % 256 + 0x100 * (low / 0x100 % 256) == low % 0x1_0000);
}

/// The four bytes that a number is held to.
#[verifier::spinoff_prover]
proof fn lemma_four_bytes(n: int, low: u32)
    requires
        low == n % 0x1_0000_0000,
    ensures
        integer_in(wire::le32(low).take(4)) == wrapped(n, 0x1_0000_0000),
{
    wire::lemma_u32_reads_back(low, Seq::empty());
    assert(wire::le32(low).take(4) =~= wire::le32(low) + Seq::empty());
}

/// The eight bytes that a number is held to.
#[verifier::spinoff_prover]
proof fn lemma_eight_bytes(n: int, m: u64)
    requires
        m == n % 0x1_0000_0000_0000_0000,
    ensures
        integer_in(wire::le64(m).take(8)) == wrapped(n, 0x1_0000_0000_0000_0000),
{
    wire::lemma_u64_reads_back(m, Seq::empty());
    assert(wire::le64(m).take(8) =~= wire::le64(m) + Seq::empty());
}

/// The low bytes of an integer are the integer held to that width.
#[verifier::spinoff_prover]
proof fn lemma_low_bytes(n: i64, width: u8)
    requires
        width == 1 || width == 2 || width == 4 || width == 8,
    ensures
        integer_in(wire::le_i64(n).take(width as int)) == wrapped(n as int, width_modulus(width)),
{
    let m = wire::twos_complement(n as int, 0x1_0000_0000_0000_0000) as u64;
    let low = (m % 0x1_0000_0000) as u32;
    lemma_held_twice(n as int);
    if width == 8 {
        lemma_eight_bytes(n as int, m);
    } else {
        lemma_low_of_eight(m, width);
        if width == 1 {
            lemma_one_byte(n as int, low);
        } else if width == 2 {
            lemma_two_bytes(n as int, low);
        } else {
            lemma_four_bytes(n as int, low);
        }
    }
}

/// An integer of any width reads back held to that width.
proof fn lemma_integer_reads_back(width: u8, value: Option<Seq<char>>, rest: Seq<u8>)
    requires
        carries(ColumnType::IntN(width), value),
    ensures
        next_cell(cell_bytes(ColumnType::IntN(width), value) + rest, ColumnType::IntN(width)) == (
            Ok::<Option<Seq<char>>, Fault>(carried(ColumnType::IntN(width), value)),
            rest,
        ),
{
    match value {
        None => {
            wire::lemma_byte_reads_back(0, rest);
            assert(rest.skip(0) =~= rest);
        },
        Some(text) => {
            let bytes = wire::le_i64(integer_of(text)).take(width as int);
            let s = cell_bytes(ColumnType::IntN(width), value) + rest;
            assert(s =~= seq![width] + (bytes + rest));
            wire::lemma_byte_reads_back(width, bytes + rest);
            wire::lemma_take_reads_back(bytes, rest);
            if width > 0 {
                lemma_low_bytes(integer_of(text), width);
            }
        },
    }
}

/// UCS-2 text that a cell carries reads back as far as its column holds it.
#[verifier::spinoff_prover]
proof fn lemma_nvarchar_reads_back(max: u16, value: Option<Seq<char>>, rest: Seq<u8>)
    requires
        carries(ColumnType::NVarChar(max), value),
    ensures
        next_cell(
            cell_bytes(ColumnType::NVarChar(max), value) + rest,
            ColumnType::NVarChar(max),
        ) == (
            Ok::<Option<Seq<char>>, Fault>(carried(ColumnType::NVarChar(max), value)),
            rest,
        ),
{
    let bytes = value_in(value, |text: Seq<char>| wire::ucs2_bytes(text));
    lemma_var_reads_back(max, bytes, rest);
}

/// UTF-8 text that a cell carries reads back as far as its column holds it.
#[verifier::spinoff_prover]
proof fn lemma_varchar_reads_back(max: u16, value: Option<Seq<char>>, rest: Seq<u8>)
    requires
        carries(ColumnType::VarChar(max), value),
    ensures
        next_cell(
            cell_bytes(ColumnType::VarChar(max), value) + rest,
            ColumnType::VarChar(max),
        ) == (
            Ok::<Option<Seq<char>>, Fault>(carried(ColumnType::VarChar(max), value)),
            rest,
        ),
{
    let bytes = value_in(value, |text: Seq<char>| encode_utf8(text));
    lemma_var_reads_back(max, bytes, rest);
}

/// Bytes that a cell carries read back as far as their column holds them.
#[verifier::spinoff_prover]
proof fn lemma_varbinary_reads_back(max: u16, value: Option<Seq<char>>, rest: Seq<u8>)
    requires
        carries(ColumnType::VarBinary(max), value),
    ensures
        next_cell(
            cell_bytes(ColumnType::VarBinary(max), value) + rest,
            ColumnType::VarBinary(max),
        ) == (
            Ok::<Option<Seq<char>>, Fault>(carried(ColumnType::VarBinary(max), value)),
            rest,
        ),
{
    let bytes = value_in(value, |text: Seq<char>| binary::value_bytes(text));
    lemma_var_reads_back(max, bytes, rest);
}

/// An integer that eight bytes can hold is held to them as it is.
proof fn lemma_held_as_it_is(n: i64)
    ensures
        wrapped(n as int, 0x1_0000_0000_0000_0000) == n,
{
}

/// An integer of four bytes reads back, null as zero.
#[verifier::spinoff_prover]
proof fn lemma_int_reads_back(value: Option<Seq<char>>, rest: Seq<u8>)
    ensures
        next_cell(cell_bytes(ColumnType::Int, value) + rest, ColumnType::Int) == (
            Ok::<Option<Seq<char>>, Fault>(carried(ColumnType::Int, value)),
            rest,
        ),
{
    wire::lemma_i32_reads_back(as_i32(integer_or_zero(value)), rest);
}

/// An integer of eight bytes reads back, null as zero.
#[verifier::spinoff_prover]
proof fn lemma_bigint_reads_back(value: Option<Seq<char>>, rest: Seq<u8>)
    ensures
        next_cell(cell_bytes(ColumnType::BigInt, value) + rest, ColumnType::BigInt) == (
            Ok::<Option<Seq<char>>, Fault>(carried(ColumnType::BigInt, value)),
            rest,
        ),
{
    let n = integer_or_zero(value);
    let m = wire::twos_complement(n as int, 0x1_0000_0000_0000_0000) as u64;
    lemma_held_as_it_is(n);
    wire::lemma_u64_reads_back(m, rest);
    assert(wire::next_u64(cell_bytes(ColumnType::BigInt, value) + rest) == (
        Ok::<u64, Fault>(m),
        rest,
    ));
}

/// A bit reads back, and so does its null.
#[verifier::spinoff_prover]
proof fn lemma_bit_reads_back(kind: ColumnType, value: Option<Seq<char>>, rest: Seq<u8>)
    requires
        kind is Bit || kind is BitN,
    ensures
        next_cell(cell_bytes(kind, value) + rest, kind) == (
            Ok::<Option<Seq<char>>, Fault>(carried(kind, value)),
            rest,
        ),
{
    let bit = bit_byte(is_truthy(value));
    wire::lemma_byte_reads_back(bit, rest);
    wire::lemma_byte_reads_back(0, rest);
    wire::lemma_byte_reads_back(1, seq![bit] + rest);
    assert(seq![1u8, bit] + rest =~= seq![1u8] + (seq![bit] + rest));
}

/// A value that a cell carries reads back as what it is once it has been in
/// one, and nothing of what follows is read.
#[verifier::spinoff_prover]
pub proof fn lemma_cell_reads_back(kind: ColumnType, value: Option<Seq<char>>, rest: Seq<u8>)
    requires
        carries(kind, value),
    ensures
        next_cell(cell_bytes(kind, value) + rest, kind) == (
            Ok::<Option<Seq<char>>, Fault>(carried(kind, value)),
            rest,
        ),
{
    match kind {
        ColumnType::IntN(width) => lemma_integer_reads_back(width, value, rest),
        ColumnType::Int => lemma_int_reads_back(value, rest),
        ColumnType::BigInt => lemma_bigint_reads_back(value, rest),
        ColumnType::Bit | ColumnType::BitN => lemma_bit_reads_back(kind, value, rest),
        ColumnType::NVarChar(max) => lemma_nvarchar_reads_back(max, value, rest),
        ColumnType::VarChar(max) => lemma_varchar_reads_back(max, value, rest),
        ColumnType::VarBinary(max) => lemma_varbinary_reads_back(max, value, rest),
    }
}

/// Text that its column holds whole is carried as it is.
pub proof fn lemma_whole_text_is_carried(max: u16, said: Seq<char>)
    ensures
        held(max, wire::ucs2_bytes(said)) == wire::ucs2_bytes(said) ==> carried(
            ColumnType::NVarChar(max),
            Some(said),
        ) == Some(said),
        held(max, encode_utf8(said)) == encode_utf8(said) ==> carried(
            ColumnType::VarChar(max),
            Some(said),
        ) == Some(said),
{
    wire::lemma_ucs2_reads_back(said);
    encode_utf8_valid_utf8(said);
    encode_utf8_decode_utf8(said);
}

/// Decimal has no white space at either end, so a number read back is the
/// number written.
proof fn lemma_integer_of_decimal(n: i64)
    ensures
        integer_of(number::decimal(n as int)) == n,
{
    let text = number::decimal(n as int);
    number::lemma_digits_read_back(
        if n < 0 {
            (-(n as int)) as nat
        } else {
            n as nat
        },
    );
    let digits = number::digits(
        if n < 0 {
            (-(n as int)) as nat
        } else {
            n as nat
        },
    );
    assert(number::is_digit(digits[0]));
    assert(number::is_digit(digits.last()));
    assert(text.last() == digits.last());
    assert(text::trimmed(text) == text);
    number::lemma_decimal_reads_back(n);
}

/// A bit read from a cell is read as that bit again.
proof fn lemma_bit_of_text(bit: bool)
    ensures
        is_truthy(Some(bit_text(bit_byte(bit)))) == bit,
{
    reveal_strlit("1");
    reveal_strlit("true");
    reveal_strlit("True");
    reveal_strlit("TRUE");
    let text = bit_text(bit_byte(bit));
    assert(text =~= seq![if bit { '1' } else { '0' }]);
    assert(text::left_trimmed(text) == text);
    assert(text::right_trimmed(text) == text);
    assert("true"@.len() == 4 && "True"@.len() == 4 && "TRUE"@.len() == 4);
    assert("1"@ =~= seq!['1']);
    if !bit {
        assert(text[0] == '0');
        assert("1"@[0] == '1');
    }
}

/// A number held to a width stays as it is when held to it again.
proof fn lemma_wrapped_is_kept(n: i64, width: u8)
    ensures
        ({
            let held = wrapped(n as int, width_modulus(width));
            &&& i64::MIN <= held <= i64::MAX
            &&& wrapped(held, width_modulus(width)) == held
        }),
{
}

/// UCS-2 text that a column holds a part of is held whole the second time.
proof fn lemma_held_ucs2_is_kept(max: u16, said: Seq<char>)
    ensures
        ({
            let once = wire::ucs2_text(held(max, wire::ucs2_bytes(said)));
            wire::ucs2_text(held(max, wire::ucs2_bytes(once))) == once
        }),
{
    let part = held(max, wire::ucs2_bytes(said));
    let once = wire::ucs2_text(part);
    text::lemma_lossy_units_are_as_many(text::byte_units(part));
    assert(held(max, wire::ucs2_bytes(once)) == wire::ucs2_bytes(once));
    wire::lemma_ucs2_reads_back(once);
}

/// A value read from a cell and written to another of the same type is read
/// as it was the first time. UTF-8 that its column cuts inside a character is
/// left out: what replaces the character is not stated.
pub proof fn lemma_carried_values_are_kept(kind: ColumnType, value: Option<Seq<char>>)
    requires
        kind matches ColumnType::VarChar(max) ==> value matches Some(said) ==> valid_utf8(
            held(max, encode_utf8(said)),
        ),
    ensures
        carried(kind, carried(kind, value)) == carried(kind, value),
{
    match kind {
        ColumnType::IntN(width) => {
            if let Some(text) = value {
                if width > 0 {
                    lemma_wrapped_is_kept(integer_of(text), width);
                    lemma_integer_of_decimal(
                        wrapped(integer_of(text) as int, width_modulus(width)) as i64,
                    );
                }
            }
        },
        ColumnType::Int => lemma_integer_of_decimal(as_i32(integer_or_zero(value)) as i64),
        ColumnType::BigInt => lemma_integer_of_decimal(integer_or_zero(value)),
        ColumnType::Bit | ColumnType::BitN => lemma_bit_of_text(is_truthy(value)),
        ColumnType::NVarChar(max) => {
            if let Some(said) = value {
                lemma_held_ucs2_is_kept(max, said);
            }
        },
        ColumnType::VarChar(max) => {
            if let Some(said) = value {
                decode_utf8_encode_utf8(held(max, encode_utf8(said)));
            }
        },
        ColumnType::VarBinary(max) => {
            if let Some(said) = value {
                binary::lemma_literal_reads_back(held(max, binary::value_bytes(said)));
            }
        },
    }
}

// Reading leaves no more than there was.

/// A `TYPE_INFO` read leaves no more than there was.
pub proof fn lemma_type_info_shrinks(s: Seq<u8>)
    ensures
        next_type_info(s).1.len() <= s.len(),
{
}

/// Chunks read leave no more than there was.
proof fn lemma_chunks_shrink(had: Seq<u8>, s: Seq<u8>)
    ensures
        next_chunks(had, s).1.len() <= s.len(),
    decreases s.len(),
{
    if s.len() >= 4 {
        let length = wire::le32_value(s) as int;
        let rest = s.skip(4);
        if 0 < length <= rest.len() {
            lemma_chunks_shrink(had + rest.take(length), rest.skip(length));
        }
    }
}

/// A cell read leaves no more than there was.
pub proof fn lemma_cell_shrinks(s: Seq<u8>, kind: ColumnType)
    ensures
        next_cell(s, kind).1.len() <= s.len(),
{
    if s.len() >= 8 {
        lemma_chunks_shrink(Seq::empty(), s.skip(8));
    }
}

} // verus!
