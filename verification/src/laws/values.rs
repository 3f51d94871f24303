//! What columns declare and what their cells hold.

use vstd::prelude::*;
use vstd::utf8::*;

use crate::binary;
use crate::column;
use crate::column::ColumnType;
use crate::error::Fault;
use crate::laws::numbers;
use crate::laws::numbers::breaks_off;
use crate::laws::texts;
use crate::number;
use crate::text;
use crate::wire;

verus! {

/// A value that was read: the text it comes to, or null.
pub type Value = Option<Seq<char>>;

/// The types that say nothing more than their byte, or one byte more, are
/// read by it; of a nullable bit that byte makes no difference.
pub proof fn lemma_plain_types_are_read(width: u8, any: u8, rest: Seq<u8>)
    ensures
        column::next_type_info(seq![0x26u8, width] + rest) == (
            Ok::<ColumnType, Fault>(ColumnType::IntN(width)),
            rest,
        ),
        column::next_type_info(seq![0x38u8] + rest) == (
            Ok::<ColumnType, Fault>(ColumnType::Int),
            rest,
        ),
        column::next_type_info(seq![0x7Fu8] + rest) == (
            Ok::<ColumnType, Fault>(ColumnType::BigInt),
            rest,
        ),
        column::next_type_info(seq![0x32u8] + rest) == (
            Ok::<ColumnType, Fault>(ColumnType::Bit),
            rest,
        ),
        column::next_type_info(seq![0x68u8, any] + rest) == (
            Ok::<ColumnType, Fault>(ColumnType::BitN),
            rest,
        ),
{
    assert((seq![0x26u8, width] + rest).skip(1) =~= seq![width] + rest);
    assert((seq![width] + rest).skip(1) =~= rest);
    assert((seq![0x38u8] + rest).skip(1) =~= rest);
    assert((seq![0x7Fu8] + rest).skip(1) =~= rest);
    assert((seq![0x32u8] + rest).skip(1) =~= rest);
    assert((seq![0x68u8, any] + rest).skip(1).skip(1) =~= rest);
}

/// Text of either kind is read by its length, whatever collation it has:
/// what the five bytes of that are makes no difference.
pub proof fn lemma_any_collation_is_read_past(a: u8, b: u8, collation: Seq<u8>, rest: Seq<u8>)
    requires
        collation.len() == 5,
    ensures
        column::next_type_info(seq![0xE7u8, a, b] + collation + rest) == (
            Ok::<ColumnType, Fault>(ColumnType::NVarChar((a + 256 * b) as u16)),
            rest,
        ),
        column::next_type_info(seq![0xA7u8, a, b] + collation + rest) == (
            Ok::<ColumnType, Fault>(ColumnType::VarChar((a + 256 * b) as u16)),
            rest,
        ),
{
    let n = seq![0xE7u8, a, b] + collation + rest;
    let v = seq![0xA7u8, a, b] + collation + rest;
    let behind = seq![a, b] + (collation + rest);
    assert(n.skip(1) =~= behind);
    assert(v.skip(1) =~= behind);
    assert(behind.skip(2) =~= collation + rest);
    assert((collation + rest).skip(5) =~= rest);
}

/// Text of either kind reads as declared whatever its collation is, so two
/// columns that differ in their collations alone read alike.
pub proof fn lemma_collations_make_no_difference(max: u16, collation: Seq<u8>, rest: Seq<u8>)
    requires
        collation.len() == 5,
    ensures
        column::next_type_info(seq![column::NVARCHAR] + wire::le16(max) + collation + rest) == (
            Ok::<ColumnType, Fault>(ColumnType::NVarChar(max)),
            rest,
        ),
        column::next_type_info(seq![column::BIGVARCHAR] + wire::le16(max) + collation + rest) == (
            Ok::<ColumnType, Fault>(ColumnType::VarChar(max)),
            rest,
        ),
{
    let a = (max % 256) as u8;
    let b = (max / 256) as u8;
    lemma_any_collation_is_read_past(a, b, collation, rest);
    assert(seq![column::NVARCHAR] + wire::le16(max) =~= seq![0xE7u8, a, b]);
    assert(seq![column::BIGVARCHAR] + wire::le16(max) =~= seq![0xA7u8, a, b]);
}

/// Bytes are read by their length.
pub proof fn lemma_binary_is_read(a: u8, b: u8, rest: Seq<u8>)
    ensures
        column::next_type_info(seq![0xA5u8, a, b] + rest) == (
            Ok::<ColumnType, Fault>(ColumnType::VarBinary((a + 256 * b) as u16)),
            rest,
        ),
{
    let s = seq![0xA5u8, a, b] + rest;
    assert(s.skip(1) =~= seq![a, b] + rest);
    assert((seq![a, b] + rest).skip(2) =~= rest);
}

/// Any other type is refused by its byte, which the failure names.
pub proof fn lemma_other_types_are_refused(kind: u8, rest: Seq<u8>)
    requires
        kind != 0x26 && kind != 0x38 && kind != 0x7F && kind != 0x32 && kind != 0x68,
        kind != 0xE7 && kind != 0xA7 && kind != 0xA5,
    ensures
        column::next_type_info(seq![kind] + rest).0 == Err::<ColumnType, Fault>(
            Fault {
                message: "column type "@ + seq![
                    '0',
                    'x',
                    "0123456789abcdef"@[kind as int / 16],
                    "0123456789abcdef"@[kind as int % 16],
                ] + " is not one this crate reads; cast it in the query"@,
                retryable: false,
            },
        ),
{
    numbers::lemma_a_byte_is_named(kind);
}

/// A type that breaks off is a failure.
pub proof fn lemma_a_type_breaks_off(kind: u8, short: Seq<u8>)
    requires
        kind == 0x26 || kind == 0x68 ==> short.len() < 1,
        kind == 0xE7 || kind == 0xA7 ==> short.len() < 7,
        kind == 0xA5 ==> short.len() < 2,
        kind == 0x26 || kind == 0x68 || kind == 0xE7 || kind == 0xA7 || kind == 0xA5,
    ensures
        column::next_type_info(Seq::empty()).0 == Err::<ColumnType, Fault>(breaks_off()),
        column::next_type_info(seq![kind] + short).0 == Err::<ColumnType, Fault>(breaks_off()),
{
    assert((seq![kind] + short).skip(1) =~= short);
}

/// A type is declared by its byte and what goes with it: a width, or a length
/// with, of text, no collation.
pub proof fn lemma_types_are_declared(width: u8, max: u16)
    ensures
        column::type_info_bytes(ColumnType::IntN(width)) == seq![0x26u8, width],
        column::type_info_bytes(ColumnType::Int) == seq![0x38u8],
        column::type_info_bytes(ColumnType::BigInt) == seq![0x7Fu8],
        column::type_info_bytes(ColumnType::Bit) == seq![0x32u8],
        column::type_info_bytes(ColumnType::BitN) == seq![0x68u8, 1u8],
        column::type_info_bytes(ColumnType::NVarChar(max)) == seq![
            0xE7u8,
            (max % 256) as u8,
            (max / 256) as u8,
            0u8,
            0u8,
            0u8,
            0u8,
            0u8,
        ],
        column::type_info_bytes(ColumnType::VarChar(max)) == seq![
            0xA7u8,
            (max % 256) as u8,
            (max / 256) as u8,
            0u8,
            0u8,
            0u8,
            0u8,
            0u8,
        ],
        column::type_info_bytes(ColumnType::VarBinary(max)) == seq![
            0xA5u8,
            (max % 256) as u8,
            (max / 256) as u8,
        ],
{
    assert(column::type_info_bytes(ColumnType::NVarChar(max)) =~= seq![
        0xE7u8,
        (max % 256) as u8,
        (max / 256) as u8,
        0u8,
        0u8,
        0u8,
        0u8,
        0u8,
    ]);
    assert(column::type_info_bytes(ColumnType::VarChar(max)) =~= seq![
        0xA7u8,
        (max % 256) as u8,
        (max / 256) as u8,
        0u8,
        0u8,
        0u8,
        0u8,
        0u8,
    ]);
    assert(column::type_info_bytes(ColumnType::VarBinary(max)) =~= seq![
        0xA5u8,
        (max % 256) as u8,
        (max / 256) as u8,
    ]);
}

// Values of variable length.

/// In a column that is not `(MAX)` a value is the bytes behind its length,
/// whatever the column declares, and null the length that says so.
pub proof fn lemma_a_short_value_is_read(max: u16, a: u8, b: u8, bytes: Seq<u8>, rest: Seq<u8>)
    requires
        max != 0xFFFF,
        a + 256 * b == bytes.len(),
        bytes.len() < 0xFFFF,
    ensures
        column::next_var(seq![a, b] + bytes + rest, max) == (
            Ok::<Option<Seq<u8>>, Fault>(Some(bytes)),
            rest,
        ),
        column::next_var(seq![0xFFu8, 0xFFu8] + rest, max) == (
            Ok::<Option<Seq<u8>>, Fault>(None),
            rest,
        ),
        rest.len() < bytes.len() ==> column::next_var(seq![a, b] + rest, max).0 == Err::<
            Option<Seq<u8>>,
            Fault,
        >(breaks_off()),
        rest.len() < 2 ==> column::next_var(rest, max).0 == Err::<Option<Seq<u8>>, Fault>(
            breaks_off(),
        ),
{
    let s = seq![a, b] + bytes + rest;
    assert(s.skip(2) =~= bytes + rest);
    assert((bytes + rest).take(bytes.len() as int) =~= bytes);
    assert((bytes + rest).skip(bytes.len() as int) =~= rest);
    assert((seq![0xFFu8, 0xFFu8] + rest).skip(2) =~= rest);
    assert((seq![a, b] + rest).skip(2) =~= rest);
}

/// The chunks `parts`, each behind its length, and the zero that ends them.
pub open spec fn in_chunks(parts: Seq<Seq<u8>>) -> Seq<u8>
    decreases parts.len(),
{
    if parts.len() == 0 {
        seq![0u8, 0u8, 0u8, 0u8]
    } else {
        let n = parts[0].len();
        seq![
            (n % 256) as u8,
            (n / 0x100 % 256) as u8,
            (n / 0x1_0000 % 256) as u8,
            (n / 0x100_0000) as u8,
        ] + parts[0] + in_chunks(parts.skip(1))
    }
}

/// `parts` one behind the other.
pub open spec fn joined(parts: Seq<Seq<u8>>) -> Seq<u8>
    decreases parts.len(),
{
    if parts.len() == 0 {
        Seq::empty()
    } else {
        parts[0] + joined(parts.skip(1))
    }
}

/// Chunks are read as what they hold, however the bytes were cut into them.
proof fn lemma_chunks_are_joined(had: Seq<u8>, parts: Seq<Seq<u8>>, rest: Seq<u8>)
    requires
        forall|i: int| 0 <= i < parts.len() ==> 0 < (#[trigger] parts[i]).len() <= 0xFFFF_FFFF,
    ensures
        column::next_chunks(had, in_chunks(parts) + rest) == (
            Ok::<Seq<u8>, Fault>(had + joined(parts)),
            rest,
        ),
    decreases parts.len(),
{
    let s = in_chunks(parts) + rest;
    if parts.len() == 0 {
        assert(s.skip(4) =~= rest);
        assert(had + joined(parts) =~= had);
        assert(wire::le32_value(s) == 0);
    } else {
        let part = parts[0];
        let others = parts.skip(1);
        assert(0 < part.len() <= 0xFFFF_FFFF);
        assert forall|i: int| 0 <= i < others.len() implies 0 < (#[trigger] others[i]).len()
            <= 0xFFFF_FFFF by {
            assert(others[i] == parts[i + 1]);
        }
        let behind = in_chunks(others) + rest;
        let n = part.len() as u32;
        assert(s =~= wire::le32(n) + (part + behind));
        wire::lemma_u32_reads_back(n, part + behind);
        wire::lemma_take_reads_back(part, behind);
        lemma_chunks_are_joined(had + part, others, rest);
        assert(had + part + joined(others) =~= had + joined(parts));
    }
}

/// In a `(MAX)` column a value is what its chunks hold, however a server cut
/// it into them, where the total says as much or says that it is not known.
pub proof fn lemma_any_chunks_are_read(total: Seq<u8>, parts: Seq<Seq<u8>>, rest: Seq<u8>)
    requires
        total.len() == 8,
        forall|i: int| 0 <= i < parts.len() ==> 0 < (#[trigger] parts[i]).len() <= 0xFFFF_FFFF,
        joined(parts).len() < 0xFFFF_FFFF_FFFF_FFFE,
    ensures
        ({
            let n = total[0] + 0x100 * total[1] + 0x1_0000 * total[2] + 0x100_0000 * total[3]
                + 0x1_0000_0000 * total[4] + 0x100_0000_0000 * total[5] + 0x1_0000_0000_0000
                * total[6] + 0x100_0000_0000_0000 * total[7];
            let read = column::next_var(total + in_chunks(parts) + rest, 0xFFFF);
            &&& n == joined(parts).len() || n == 0xFFFF_FFFF_FFFF_FFFE ==> read == (
                Ok::<Option<Seq<u8>>, Fault>(Some(joined(parts))),
                rest,
            )
            &&& n != joined(parts).len() && n < 0xFFFF_FFFF_FFFF_FFFE ==> read.0 == Err::<
                Option<Seq<u8>>,
                Fault,
            >(
                Fault { message: "chunks that do not add up to their total"@, retryable: false },
            )
            &&& n == 0xFFFF_FFFF_FFFF_FFFF ==> read == (
                Ok::<Option<Seq<u8>>, Fault>(None),
                in_chunks(parts) + rest,
            )
        }),
{
    let behind = in_chunks(parts) + rest;
    assert(total + in_chunks(parts) + rest =~= total + behind);
    numbers::lemma_eight_bytes_are_read(total, behind, Seq::empty());
    lemma_chunks_are_joined(Seq::empty(), parts, rest);
    assert(Seq::empty() + joined(parts) =~= joined(parts));
}

/// Chunks that break off are a failure: in a length, in a chunk, and before
/// the zero that ends them; and so is a total that does.
pub proof fn lemma_chunks_break_off(had: Seq<u8>, length: Seq<u8>, short: Seq<u8>)
    requires
        length.len() == 4,
        short.len() < length[0] + 0x100 * length[1] + 0x1_0000 * length[2] + 0x100_0000 * length[3],
    ensures
        column::next_chunks(had, length + short).0 == Err::<Seq<u8>, Fault>(breaks_off()),
        short.len() < 4 ==> column::next_chunks(had, short).0 == Err::<Seq<u8>, Fault>(
            breaks_off(),
        ),
        short.len() < 8 ==> column::next_var(short, 0xFFFF).0 == Err::<Option<Seq<u8>>, Fault>(
            breaks_off(),
        ),
{
    assert((length + short).skip(4) =~= short);
}

/// A chunk that is whole is put behind what there is, so chunks break off
/// where the first of them does that is not whole.
pub proof fn lemma_a_chunk_is_put_behind(
    had: Seq<u8>,
    length: Seq<u8>,
    chunk: Seq<u8>,
    rest: Seq<u8>,
)
    requires
        length.len() == 4,
        chunk.len() == length[0] + 0x100 * length[1] + 0x1_0000 * length[2] + 0x100_0000
            * length[3],
        chunk.len() > 0,
    ensures
        column::next_chunks(had, length + chunk + rest) == column::next_chunks(had + chunk, rest),
{
    let s = length + chunk + rest;
    assert(s.skip(4) =~= chunk + rest);
    wire::lemma_take_reads_back(chunk, rest);
    assert(wire::le32_value(s) == chunk.len());
}

/// In a column that is not `(MAX)` a value is written behind its length, cut
/// one short of the length that says null, which null alone is written with.
pub proof fn lemma_a_short_value_is_written(max: u16, bytes: Seq<u8>)
    requires
        max != 0xFFFF,
    ensures
        column::var_bytes(max, None) == seq![0xFFu8, 0xFFu8],
        bytes.len() < 0xFFFF ==> column::var_bytes(max, Some(bytes)) == seq![
            (bytes.len() % 256) as u8,
            (bytes.len() / 256) as u8,
        ] + bytes,
        bytes.len() >= 0xFFFF ==> column::var_bytes(max, Some(bytes)) == seq![0xFEu8, 0xFFu8]
            + bytes.take(0xFFFE),
{
    assert(column::var_bytes(max, None) =~= seq![0xFFu8, 0xFFu8]);
    if bytes.len() < 0xFFFF {
        assert(column::var_bytes(max, Some(bytes)) =~= seq![
            (bytes.len() % 256) as u8,
            (bytes.len() / 256) as u8,
        ] + bytes);
    } else {
        assert(column::var_bytes(max, Some(bytes)) =~= seq![0xFEu8, 0xFFu8] + bytes.take(0xFFFE));
    }
}

/// `bytes` in pieces of 65535, the last shorter or not.
pub open spec fn in_pieces(bytes: Seq<u8>) -> Seq<Seq<u8>>
    decreases bytes.len(),
{
    if bytes.len() == 0 {
        Seq::empty()
    } else if bytes.len() <= 65535 {
        seq![bytes]
    } else {
        seq![bytes.take(65535)] + in_pieces(bytes.skip(65535))
    }
}

/// The pieces are the chunks a value is written in.
proof fn lemma_pieces_are_chunks(bytes: Seq<u8>)
    ensures
        column::plp_chunks(bytes) + seq![0u8, 0u8, 0u8, 0u8] == in_chunks(in_pieces(bytes)),
    decreases bytes.len(),
{
    let zero = seq![0u8, 0u8, 0u8, 0u8];
    if bytes.len() == 0 {
        assert(column::plp_chunks(bytes) + zero =~= zero);
    } else if bytes.len() <= 65535 {
        assert(in_pieces(bytes).skip(1) =~= Seq::empty());
        assert(in_chunks(in_pieces(bytes).skip(1)) =~= zero);
        assert(column::plp_chunks(bytes) + zero =~= in_chunks(in_pieces(bytes)));
    } else {
        let others = bytes.skip(65535);
        lemma_pieces_are_chunks(others);
        assert(in_pieces(bytes).skip(1) =~= in_pieces(others));
        assert(column::plp_chunks(bytes) + zero =~= wire::le32(65535) + bytes.take(65535) + (
        column::plp_chunks(others) + zero));
        assert(in_chunks(in_pieces(bytes)) =~= wire::le32(65535) + bytes.take(65535) + in_chunks(
            in_pieces(others),
        ));
    }
}

/// In a `(MAX)` column a value is written behind its length in chunks of
/// 65535 bytes, the last shorter or not, and a zero; null as the length that
/// says so.
pub proof fn lemma_a_long_value_is_written(bytes: Seq<u8>)
    ensures
        column::var_bytes(0xFFFF, None) == seq![
            0xFFu8,
            0xFFu8,
            0xFFu8,
            0xFFu8,
            0xFFu8,
            0xFFu8,
            0xFFu8,
            0xFFu8,
        ],
        column::var_bytes(0xFFFF, Some(bytes)) == wire::le64(bytes.len() as u64) + in_chunks(
            in_pieces(bytes),
        ),
{
    assert(column::var_bytes(0xFFFF, None) =~= seq![
        0xFFu8,
        0xFFu8,
        0xFFu8,
        0xFFu8,
        0xFFu8,
        0xFFu8,
        0xFFu8,
        0xFFu8,
    ]);
    lemma_pieces_are_chunks(bytes);
    assert(wire::le32(0) =~= seq![0u8, 0u8, 0u8, 0u8]);
    assert(column::var_bytes(0xFFFF, Some(bytes)) =~= wire::le64(bytes.len() as u64) + (
    column::plp_chunks(bytes) + wire::le32(0)));
}

// Cells.

/// A nullable integer is as wide as its own length says, whatever its column
/// declares, and reads as the number its bytes are in two's complement; no
/// bytes are null.
pub proof fn lemma_integers_are_read(declared: u8, b: Seq<u8>, rest: Seq<u8>)
    requires
        b.len() == 0 || b.len() == 1 || b.len() == 2 || b.len() == 4,
    ensures
        ({
            let n = if b.len() == 1 {
                b[0] as int
            } else if b.len() == 2 {
                b[0] + 0x100 * b[1]
            } else {
                b[0] + 0x100 * b[1] + 0x1_0000 * b[2] + 0x100_0000 * b[3]
            };
            let most: int = if b.len() == 1 {
                0x100
            } else if b.len() == 2 {
                0x1_0000
            } else {
                0x1_0000_0000
            };
            column::next_cell(seq![b.len() as u8] + b + rest, ColumnType::IntN(declared)) == (
                Ok::<Value, Fault>(
                    if b.len() == 0 {
                        None
                    } else if 2 * n < most {
                        Some(number::decimal(n))
                    } else {
                        Some(number::decimal(n - most))
                    },
                ),
                rest,
            )
        }),
{
    let s = seq![b.len() as u8] + b + rest;
    assert(s.skip(1) =~= b + rest);
    assert((b + rest).take(b.len() as int) =~= b);
    assert((b + rest).skip(b.len() as int) =~= rest);
}

/// An integer of eight bytes reads as the number they are in two's
/// complement, nullable or not.
pub proof fn lemma_long_integers_are_read(declared: u8, b: Seq<u8>, rest: Seq<u8>)
    requires
        b.len() == 8,
    ensures
        ({
            let n = b[0] + 0x100 * b[1] + 0x1_0000 * b[2] + 0x100_0000 * b[3] + 0x1_0000_0000 * b[4]
                + 0x100_0000_0000 * b[5] + 0x1_0000_0000_0000 * b[6] + 0x100_0000_0000_0000 * b[7];
            let told = if n < 0x8000_0000_0000_0000 {
                number::decimal(n)
            } else {
                number::decimal(n - 0x1_0000_0000_0000_0000)
            };
            &&& column::next_cell(seq![8u8] + b + rest, ColumnType::IntN(declared)) == (
                Ok::<Value, Fault>(Some(told)),
                rest,
            )
            &&& column::next_cell(b + rest, ColumnType::BigInt) == (
                Ok::<Value, Fault>(Some(told)),
                rest,
            )
        }),
{
    let s = seq![8u8] + b + rest;
    assert(s.skip(1) =~= b + rest);
    assert((b + rest).take(8) =~= b);
    assert((b + rest).skip(8) =~= rest);
    numbers::lemma_eight_bytes_are_read(b, rest, Seq::empty());
    numbers::lemma_eight_bytes_are_read(b, Seq::empty(), Seq::empty());
    assert(b + Seq::empty() =~= b);
}

/// An integer of four bytes that is never null reads as the number they are
/// in two's complement.
pub proof fn lemma_plain_integers_are_read(a: u8, b: u8, c: u8, d: u8, rest: Seq<u8>)
    ensures
        ({
            let n = a + 256 * b + 65536 * c + 16777216 * d;
            column::next_cell(seq![a, b, c, d] + rest, ColumnType::Int) == (
                Ok::<Value, Fault>(
                    Some(
                        if n < 0x8000_0000 {
                            number::decimal(n)
                        } else {
                            number::decimal(n - 0x1_0000_0000)
                        },
                    ),
                ),
                rest,
            )
        }),
{
    numbers::lemma_four_bytes_are_read(a, b, c, d, rest, Seq::empty());
}

/// An integer of any other width is refused, and one that breaks off is a
/// failure.
pub proof fn lemma_other_integers_are_refused(
    declared: u8,
    b: Seq<u8>,
    rest: Seq<u8>,
    short: Seq<u8>,
    width: u8,
)
    requires
        b.len() <= 255,
        b.len() != 0 && b.len() != 1 && b.len() != 2 && b.len() != 4 && b.len() != 8,
        short.len() < width,
    ensures
        column::next_cell(seq![b.len() as u8] + b + rest, ColumnType::IntN(declared)).0 == Err::<
            Value,
            Fault,
        >(
            Fault {
                message: "an integer "@ + number::decimal(b.len() as int) + " bytes wide"@,
                retryable: false,
            },
        ),
        column::next_cell(seq![width] + short, ColumnType::IntN(declared)).0 == Err::<Value, Fault>(
            breaks_off(),
        ),
        column::next_cell(Seq::empty(), ColumnType::IntN(declared)).0 == Err::<Value, Fault>(
            breaks_off(),
        ),
        short.len() < 4 ==> column::next_cell(short, ColumnType::Int).0 == Err::<Value, Fault>(
            breaks_off(),
        ),
        short.len() < 8 ==> column::next_cell(short, ColumnType::BigInt).0 == Err::<Value, Fault>(
            breaks_off(),
        ),
{
    let s = seq![b.len() as u8] + b + rest;
    assert(s.skip(1) =~= b + rest);
    assert((seq![width] + short).skip(1) =~= short);
}

/// A bit reads as `1` where its byte is anything but zero and as `0` where it
/// is; a nullable one of no length is null, and any length else is one byte.
pub proof fn lemma_bits_are_read(length: u8, byte: u8, rest: Seq<u8>)
    requires
        length > 0,
    ensures
        ({
            let told = if byte == 0 {
                seq!['0']
            } else {
                seq!['1']
            };
            &&& column::next_cell(seq![byte] + rest, ColumnType::Bit) == (
                Ok::<Value, Fault>(Some(told)),
                rest,
            )
            &&& column::next_cell(seq![length, byte] + rest, ColumnType::BitN) == (
                Ok::<Value, Fault>(Some(told)),
                rest,
            )
        }),
        column::next_cell(seq![0u8] + rest, ColumnType::BitN) == (Ok::<Value, Fault>(None), rest),
        column::next_cell(Seq::empty(), ColumnType::Bit).0 == Err::<Value, Fault>(breaks_off()),
        column::next_cell(Seq::empty(), ColumnType::BitN).0 == Err::<Value, Fault>(breaks_off()),
        column::next_cell(seq![length], ColumnType::BitN).0 == Err::<Value, Fault>(breaks_off()),
{
    reveal_strlit("0123456789");
    numbers::lemma_decimal_is_built_digit_by_digit(0, 0);
    numbers::lemma_decimal_is_built_digit_by_digit(0, 1);
    assert((seq![byte] + rest).skip(1) =~= rest);
    assert((seq![length, byte] + rest).skip(1) =~= seq![byte] + rest);
    assert((seq![0u8] + rest).skip(1) =~= rest);
    assert(seq![length].skip(1) =~= Seq::empty());
}

/// Text reads as what its bytes say, in UTF-16 or in UTF-8, and bytes as
/// their literal, in a column of any length, whatever the value's own; null
/// reads as null, and a failure stays one.
pub proof fn lemma_cells_of_any_length_are_read(s: Seq<u8>, max: u16)
    ensures
        match column::next_var(s, max) {
            (Ok(Some(bytes)), rest) => {
                &&& column::next_cell(s, ColumnType::NVarChar(max)) == (
                    Ok::<Value, Fault>(Some(wire::ucs2_text(bytes))),
                    rest,
                )
                &&& valid_utf8(bytes) ==> column::next_cell(s, ColumnType::VarChar(max)) == (
                    Ok::<Value, Fault>(Some(decode_utf8(bytes))),
                    rest,
                )
                &&& !valid_utf8(bytes) ==> column::next_cell(s, ColumnType::VarChar(max)) == (
                    Ok::<Value, Fault>(Some(text::patched_utf8(bytes))),
                    rest,
                )
                &&& column::next_cell(s, ColumnType::VarBinary(max)) == (
                    Ok::<Value, Fault>(Some(binary::literal_of(bytes))),
                    rest,
                )
            },
            (Ok(None), rest) => {
                &&& column::next_cell(s, ColumnType::NVarChar(max)) == (
                    Ok::<Value, Fault>(None),
                    rest,
                )
                &&& column::next_cell(s, ColumnType::VarChar(max)) == (
                    Ok::<Value, Fault>(None),
                    rest,
                )
                &&& column::next_cell(s, ColumnType::VarBinary(max)) == (
                    Ok::<Value, Fault>(None),
                    rest,
                )
            },
            (Err(fault), _) => {
                &&& column::next_cell(s, ColumnType::NVarChar(max)).0 == Err::<Value, Fault>(fault)
                &&& column::next_cell(s, ColumnType::VarChar(max)).0 == Err::<Value, Fault>(fault)
                &&& column::next_cell(s, ColumnType::VarBinary(max)).0 == Err::<Value, Fault>(fault)
            },
        },
{
}

/// A short text cell reads as its text, from its bytes: of either kind, and
/// of bytes as their literal.
pub proof fn lemma_short_cells_are_read(max: u16, said: Seq<char>, bytes: Seq<u8>, rest: Seq<u8>)
    requires
        max != 0xFFFF,
        wire::ucs2_bytes(said).len() < 0xFFFF,
        encode_utf8(said).len() < 0xFFFF,
        bytes.len() < 0xFFFF,
    ensures
        ({
            let wide = wire::ucs2_bytes(said);
            let narrow = encode_utf8(said);
            &&& column::next_cell(
                seq![(wide.len() % 256) as u8, (wide.len() / 256) as u8] + wide + rest,
                ColumnType::NVarChar(max),
            ) == (Ok::<Value, Fault>(Some(said)), rest)
            &&& column::next_cell(
                seq![(narrow.len() % 256) as u8, (narrow.len() / 256) as u8] + narrow + rest,
                ColumnType::VarChar(max),
            ) == (Ok::<Value, Fault>(Some(said)), rest)
            &&& column::next_cell(
                seq![(bytes.len() % 256) as u8, (bytes.len() / 256) as u8] + bytes + rest,
                ColumnType::VarBinary(max),
            ) == (Ok::<Value, Fault>(Some(binary::literal_of(bytes))), rest)
        }),
{
    let wide = wire::ucs2_bytes(said);
    let narrow = encode_utf8(said);
    wire::lemma_ucs2_reads_back(said);
    encode_utf8_valid_utf8(said);
    encode_utf8_decode_utf8(said);
    lemma_a_short_value_is_read(
        max,
        (wide.len() % 256) as u8,
        (wide.len() / 256) as u8,
        wide,
        rest,
    );
    lemma_a_short_value_is_read(
        max,
        (narrow.len() % 256) as u8,
        (narrow.len() / 256) as u8,
        narrow,
        rest,
    );
    lemma_a_short_value_is_read(
        max,
        (bytes.len() % 256) as u8,
        (bytes.len() / 256) as u8,
        bytes,
        rest,
    );
}

/// A cell's text spells the integer that is written, white space around it
/// or not, and zero where it spells none.
pub proof fn lemma_text_spells_an_integer(ahead: Seq<char>, said: Seq<char>, behind: Seq<char>)
    requires
        forall|i: int| 0 <= i < ahead.len() ==> text::is_space(#[trigger] ahead[i]),
        forall|i: int| 0 <= i < behind.len() ==> text::is_space(#[trigger] behind[i]),
        said.len() > 0 ==> !text::is_space(said[0]) && !text::is_space(said.last()),
    ensures
        column::integer_of(ahead + said + behind) == (match number::i64_in(said) {
            Some(n) => n,
            None => 0,
        }),
        column::is_truthy(Some(ahead + said + behind)) <==> (said == seq!['1'] || said == seq![
            't',
            'r',
            'u',
            'e',
        ] || said == seq!['T', 'r', 'u', 'e'] || said == seq!['T', 'R', 'U', 'E']),
        !column::is_truthy(None),
{
    texts::lemma_white_space_around_text_is_trimmed(ahead, said, behind);
    reveal_strlit("1");
    reveal_strlit("true");
    reveal_strlit("True");
    reveal_strlit("TRUE");
    assert("1"@ =~= seq!['1']);
    assert("true"@ =~= seq!['t', 'r', 'u', 'e']);
    assert("True"@ =~= seq!['T', 'r', 'u', 'e']);
    assert("TRUE"@ =~= seq!['T', 'R', 'U', 'E']);
}

/// An integer cell is written as the number its text spells, in as many bytes
/// as its column is wide; where four bytes cannot hold it, and where it is
/// null and cannot be, it is zero.
pub proof fn lemma_integer_cells_are_written(width: u8, said: Seq<char>)
    ensures
        ({
            let n = column::integer_of(said);
            &&& column::cell_bytes(ColumnType::IntN(width), Some(said)) == seq![width]
                + wire::le_i64(n).take(
                if width < 8 {
                    width as int
                } else {
                    8
                },
            )
            &&& column::cell_bytes(ColumnType::BigInt, Some(said)) == wire::le_i64(n)
            &&& -0x8000_0000 <= n < 0x8000_0000 ==> column::cell_bytes(ColumnType::Int, Some(said))
                == wire::le_i32(n as i32)
            &&& !(-0x8000_0000 <= n < 0x8000_0000) ==> column::cell_bytes(
                ColumnType::Int,
                Some(said),
            ) == seq![0u8, 0u8, 0u8, 0u8]
        }),
        column::cell_bytes(ColumnType::IntN(width), None) == seq![0u8],
        column::cell_bytes(ColumnType::Int, None) == seq![0u8, 0u8, 0u8, 0u8],
        column::cell_bytes(ColumnType::BigInt, None) == seq![0u8, 0u8, 0u8, 0u8, 0u8, 0u8, 0u8, 0u8],
{
    assert(wire::le_i32(0) =~= seq![0u8, 0u8, 0u8, 0u8]);
    assert(wire::le_i64(0) =~= seq![0u8, 0u8, 0u8, 0u8, 0u8, 0u8, 0u8, 0u8]);
}

/// A bit cell is written as one byte, behind its length where it may be null.
pub proof fn lemma_bit_cells_are_written(said: Seq<char>)
    ensures
        ({
            let bit = if column::is_truthy(Some(said)) {
                1u8
            } else {
                0u8
            };
            &&& column::cell_bytes(ColumnType::Bit, Some(said)) == seq![bit]
            &&& column::cell_bytes(ColumnType::BitN, Some(said)) == seq![1u8, bit]
        }),
        column::cell_bytes(ColumnType::Bit, None) == seq![0u8],
        column::cell_bytes(ColumnType::BitN, None) == seq![0u8],
{
}

/// A text cell is written as its text's bytes, in UTF-16 or in UTF-8, and a
/// cell of bytes as those its text names or is.
pub proof fn lemma_text_cells_are_written(max: u16, said: Seq<char>, bytes: Seq<u8>)
    ensures
        column::cell_bytes(ColumnType::NVarChar(max), Some(said)) == column::var_bytes(
            max,
            Some(wire::ucs2_bytes(said)),
        ),
        column::cell_bytes(ColumnType::VarChar(max), Some(said)) == column::var_bytes(
            max,
            Some(encode_utf8(said)),
        ),
        column::cell_bytes(ColumnType::VarBinary(max), Some(said)) == column::var_bytes(
            max,
            Some(binary::value_bytes(said)),
        ),
        column::cell_bytes(ColumnType::VarBinary(max), Some(binary::literal_of(bytes)))
            == column::var_bytes(max, Some(bytes)),
        column::cell_bytes(ColumnType::NVarChar(max), None) == column::var_bytes(max, None),
        column::cell_bytes(ColumnType::VarChar(max), None) == column::var_bytes(max, None),
        column::cell_bytes(ColumnType::VarBinary(max), None) == column::var_bytes(max, None),
{
    binary::lemma_literal_reads_back(bytes);
}

/// A value that is partially length-prefixed is one of a `(MAX)` column, read
/// and written.
pub proof fn lemma_long_values_are_partially_prefixed(s: Seq<u8>, bytes: Option<Seq<u8>>)
    ensures
        column::next_plp(s) == column::next_var(s, 0xFFFF),
        column::plp_bytes(bytes) == column::var_bytes(0xFFFF, bytes),
{
}

/// Null in a `(MAX)` column is the total that says so and nothing more, and
/// chunks that fail fail the value, whatever its total.
pub proof fn lemma_a_long_value_is_null_or_its_chunks(total: Seq<u8>, rest: Seq<u8>, fault: Fault)
    requires
        total.len() == 8,
    ensures
        column::next_var(
            seq![0xFFu8, 0xFFu8, 0xFFu8, 0xFFu8, 0xFFu8, 0xFFu8, 0xFFu8, 0xFFu8] + rest,
            0xFFFF,
        ) == (Ok::<Option<Seq<u8>>, Fault>(None), rest),
        total[0] + 0x100 * total[1] + 0x1_0000 * total[2] + 0x100_0000 * total[3] + 0x1_0000_0000
            * total[4] + 0x100_0000_0000 * total[5] + 0x1_0000_0000_0000 * total[6]
            + 0x100_0000_0000_0000 * total[7] != 0xFFFF_FFFF_FFFF_FFFF && column::next_chunks(
            Seq::empty(),
            rest,
        ).0 == Err::<Seq<u8>, Fault>(fault) ==> column::next_var(total + rest, 0xFFFF).0 == Err::<
            Option<Seq<u8>>,
            Fault,
        >(fault),
{
    let null = seq![0xFFu8, 0xFFu8, 0xFFu8, 0xFFu8, 0xFFu8, 0xFFu8, 0xFFu8, 0xFFu8];
    numbers::lemma_eight_bytes_are_read(null, rest, Seq::empty());
    numbers::lemma_eight_bytes_are_read(total, rest, Seq::empty());
}

} // verus!
