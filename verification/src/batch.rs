//! A SQL batch: the one message a client sends after the login. Since
//! TDS 7.2 it opens with `ALL_HEADERS` — a total length, then one header
//! of type 2 carrying the transaction descriptor and the count of
//! outstanding requests, both trivial here because there is no
//! transaction and one request at a time — and the SQL follows in UCS-2.
//! Read here as well as written, because the far-end [`crate::Session`]
//! reads exactly this.

use vstd::prelude::*;

use crate::error;
use crate::error::{protocol_error, Fault, TransportError};
use crate::wire;
use crate::wire::Cursor;

verus! {

/// The transaction-descriptor header, the one every batch carries.
pub const TRANSACTION_HEADER: u16 = 0x0002;

/// `ALL_HEADERS` as this crate writes it: the total, then one header of
/// eighteen bytes.
const HEADERS_LENGTH: u32 = 22;

/// The headers ahead of every batch: their length, and one header that says
/// there is no transaction and one outstanding request.
pub open spec fn batch_headers() -> Seq<u8> {
    wire::le32(22) + wire::le32(18) + wire::le16(TRANSACTION_HEADER) + wire::le64(0) + wire::le32(
        1,
    )
}

/// `sql` as the payload on the wire.
pub open spec fn batch_bytes(sql: Seq<char>) -> Seq<u8> {
    batch_headers() + wire::ucs2_bytes(sql)
}

/// The SQL a payload carries, or why it carries none.
pub open spec fn batch_sql(body: Seq<u8>) -> Result<Seq<char>, Fault> {
    match wire::next_u32(body) {
        (Err(fault), _) => Err(fault),
        (Ok(total), rest) => if total < 4 {
            Err(error::fault("a headers length under four"@))
        } else if total - 4 > rest.len() {
            Err(error::fault("headers that run past the batch"@))
        } else {
            Ok(wire::ucs2_text(rest.skip(total - 4)))
        },
    }
}

/// `sql` as the payload on the wire.
#[must_use]
pub fn encode_batch(sql: &str) -> (out: Vec<u8>)
    ensures
        out@ == batch_bytes(sql@),
{
    let mut out: Vec<u8> = Vec::new();
    wire::push_u32(&mut out, HEADERS_LENGTH);
    wire::push_u32(&mut out, HEADERS_LENGTH - 4);
    wire::push_u16(&mut out, TRANSACTION_HEADER);
    wire::push_u64(&mut out, 0);  // no transaction
    wire::push_u32(&mut out, 1);  // one outstanding request
    assert(out@ =~= batch_headers());
    let text: Vec<u8> = wire::ucs2(sql);
    wire::push_bytes(&mut out, text.as_slice());
    out
}

/// The SQL a payload carries, its headers read past; an error where the
/// headers' length is under four or past the message.
pub fn read_batch(body: &[u8]) -> (sql: Result<String, TransportError>)
    ensures
        error::outcome(sql) == batch_sql(body@),
{
    let mut cursor: Cursor<'_> = Cursor::new(body);
    let total: u32 = cursor.u32()?;
    if total < 4 {
        return Err(protocol_error("a headers length under four"));
    }
    if cursor.skip((total - 4) as usize).is_err() {
        return Err(protocol_error("headers that run past the batch"));
    }
    Ok(wire::from_ucs2(cursor.remaining()))
}

/// A batch reads back behind its headers.
pub proof fn lemma_batch_reads_back(sql: Seq<char>)
    ensures
        batch_sql(batch_bytes(sql)) == Ok::<Seq<char>, Fault>(sql),
{
    let text = wire::ucs2_bytes(sql);
    let others = wire::le32(18) + wire::le16(TRANSACTION_HEADER) + wire::le64(0) + wire::le32(1);
    assert(batch_bytes(sql) =~= wire::le32(22) + (others + text));
    wire::lemma_u32_reads_back(22, others + text);
    assert((others + text).skip(18) =~= text);
    wire::lemma_ucs2_reads_back(sql);
}

} // verus!
