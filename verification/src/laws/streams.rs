//! Streams that arrive as rows, and what a transport gives and sends.

use vstd::prelude::*;
use vstd::utf8::*;

use crate::binary;
use crate::client;
use crate::client::QueryResultView;
use crate::error::Fault;
use crate::login::LoginView;
use crate::number;
use crate::target;
use crate::{login_given, outgoing_to, stream_of, streams_of, OutgoingView, TransportView};

verus! {

/// A Stream comes from the row its first column names, on the server and the
/// database it was asked of, whatever the name and however long it is; a row
/// without a name is named by its place among the rows.
pub proof fn lemma_a_stream_comes_from_its_row(
    transport: TransportView,
    row: Seq<Option<Seq<char>>>,
    index: int,
    name: Seq<char>,
)
    ensures
        row.len() > 0 && row[0] == Some(name) ==> stream_of(transport, row, index).origin_uri
            == "mssql://"@ + transport.server + "/"@ + transport.database + "?row="@ + name,
        row.len() == 0 || row[0] is None ==> stream_of(transport, row, index).origin_uri
            == "mssql://"@ + transport.server + "/"@ + transport.database + "?row="@
            + number::decimal(index),
{
}

/// Rows with different names come from different origins, and so do rows
/// without a name at different places.
pub proof fn lemma_different_rows_come_from_different_origins(
    transport: TransportView,
    a: Seq<Option<Seq<char>>>,
    i: nat,
    b: Seq<Option<Seq<char>>>,
    j: nat,
)
    ensures
        a.len() > 0 && b.len() > 0 && a[0] is Some && b[0] is Some && a[0] != b[0] ==> stream_of(
            transport,
            a,
            i as int,
        ).origin_uri != stream_of(transport, b, j as int).origin_uri,
        (a.len() == 0 || a[0] is None) && (b.len() == 0 || b[0] is None) && i != j ==> stream_of(
            transport,
            a,
            i as int,
        ).origin_uri != stream_of(transport, b, j as int).origin_uri,
{
    let head = "mssql://"@ + transport.server + "/"@ + transport.database + "?row="@;
    if a.len() > 0 && b.len() > 0 && a[0] is Some && b[0] is Some && a[0] != b[0] {
        lemma_told_apart(head, a[0]->0, b[0]->0);
    }
    if (a.len() == 0 || a[0] is None) && (b.len() == 0 || b[0] is None) && i != j {
        number::lemma_digits_read_back(i);
        number::lemma_digits_read_back(j);
        lemma_told_apart(head, number::decimal(i as int), number::decimal(j as int));
    }
}

/// What differs differs behind anything.
proof fn lemma_told_apart(head: Seq<char>, a: Seq<char>, b: Seq<char>)
    requires
        a != b,
    ensures
        head + a != head + b,
{
    if head + a == head + b {
        assert((head + a).skip(head.len() as int) =~= a);
        assert((head + b).skip(head.len() as int) =~= b);
    }
}

/// A Stream carries what its row's last column does: the bytes that names, as
/// a literal, and the text's otherwise; nothing where that is null or there
/// is none.
pub proof fn lemma_a_stream_carries_the_last_column(
    transport: TransportView,
    row: Seq<Option<Seq<char>>>,
    index: int,
    value: Seq<char>,
)
    ensures
        row.len() > 0 && row[row.len() - 1] == Some(value) ==> stream_of(
            transport,
            row,
            index,
        ).bytes == (match binary::literal_bytes(value) {
            Some(bytes) => bytes,
            None => encode_utf8(value),
        }),
        row.len() == 0 || row[row.len() - 1] is None ==> stream_of(transport, row, index).bytes
            == Seq::<u8>::empty(),
{
    assert(encode_utf8(Seq::<char>::empty()) =~= Seq::<u8>::empty());
    assert(!binary::is_literal(Seq::<char>::empty()));
}

/// Every row of a result is one Stream, in the order of the rows.
pub proof fn lemma_every_row_is_a_stream(
    transport: TransportView,
    result: QueryResultView,
    i: int,
)
    ensures
        streams_of(transport, result).len() == result.rows.len(),
        0 <= i < result.rows.len() ==> streams_of(transport, result)[i] == stream_of(
            transport,
            result.rows[i],
            i,
        ),
{
}

/// A result's names and its count change nothing of its Streams.
pub proof fn lemma_rows_alone_are_streams(
    transport: TransportView,
    a: QueryResultView,
    b: QueryResultView,
)
    requires
        a.rows == b.rows,
    ensures
        streams_of(transport, a) == streams_of(transport, b),
{
    assert(streams_of(transport, a) =~= streams_of(transport, b));
}

/// A transport logs in as its user, with its password or an empty one.
pub proof fn lemma_a_transport_logs_in_as_its_user(transport: TransportView, password: Seq<char>)
    ensures
        transport.password == Some(password) ==> login_given(transport) == (LoginView {
            user: transport.user,
            password,
        }),
        transport.password is None ==> login_given(transport) == (LoginView {
            user: transport.user,
            password: Seq::empty(),
        }),
{
}

/// A send goes to where its target is, and inserts the bytes there: text as
/// an `N` literal of the text, however long it is, and anything else as a
/// binary literal.
pub proof fn lemma_a_send_inserts_where_its_target_is(
    transport: TransportView,
    target: Seq<char>,
    bytes: Seq<u8>,
)
    ensures
        match target::resolved(transport.server, transport.database, target) {
            Ok(place) => outgoing_to(transport, target, bytes) == Ok::<OutgoingView, Fault>(
                OutgoingView {
                    server: place.server,
                    database: place.database,
                    sql: "INSERT INTO "@ + (seq!['['] + client::doubled(place.table, ']') + seq![
                        ']',
                    ]) + " ("@ + (seq!['['] + client::doubled(place.column, ']') + seq![']'])
                        + ") VALUES ("@ + (if valid_utf8(bytes) && !decode_utf8(bytes).contains(
                        '\0',
                    ) {
                        seq!['N', '\''] + client::doubled(decode_utf8(bytes), '\'') + seq!['\'']
                    } else {
                        binary::literal_of(bytes)
                    }) + ")"@,
                },
            ),
            Err(fault) => outgoing_to(transport, target, bytes) == Err::<OutgoingView, Fault>(
                fault,
            ),
        },
{
    if let Ok(place) = target::resolved(transport.server, transport.database, target) {
        crate::laws::inserts::lemma_text_is_written_as_text(place.table, place.column, bytes);
    }
}

} // verus!
