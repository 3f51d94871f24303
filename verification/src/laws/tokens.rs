//! What a server's tokens say, whatever server wrote them.

use vstd::prelude::*;

use crate::column;
use crate::column::{ColumnType, ColumnView};
use crate::error::Fault;
use crate::laws::numbers;
use crate::laws::numbers::breaks_off;
use crate::laws::texts;
use crate::laws::values::{joined, Value};
use crate::text;
use crate::token;
use crate::token::{MessageView, TokenView};
use crate::wire;

verus! {

/// A token that was read, or none at the end.
pub type Next = Option<TokenView>;

/// A token is what stands behind its byte, of the kind that byte says.
proof fn lemma_behind_its_byte(columns: Seq<ColumnView>, kind: u8, s: Seq<u8>)
    ensures
        token::next_token(columns, seq![kind] + s) == (
            match token::next_of_kind(columns, kind, s).0 {
                Ok(read) => Ok::<Next, Fault>(Some(read)),
                Err(fault) => Err(fault),
            },
            token::next_of_kind(columns, kind, s).1,
        ),
{
    assert((seq![kind] + s).skip(1) =~= s);
}

/// What stands behind the byte of a token with a length of its own.
proof fn lemma_of_a_framed_kind(columns: Seq<ColumnView>, kind: u8, s: Seq<u8>)
    requires
        kind == 0xE3 || kind == 0xAA || kind == 0xAB || kind == 0xAD || kind == 0xA9,
    ensures
        token::next_of_kind(columns, kind, s) == (match token::next_body(s) {
            (Ok(body), rest) => (token::framed_in(kind, body), rest),
            (Err(fault), rest) => (Err(fault), rest),
        }),
{
    reveal(token::next_of_kind);
}

/// What stands behind the byte of a token without one.
proof fn lemma_of_a_plain_kind(columns: Seq<ColumnView>, kind: u8, s: Seq<u8>)
    ensures
        kind == 0xFD || kind == 0xFE || kind == 0xFF ==> token::next_of_kind(columns, kind, s)
            == token::next_done(kind, s),
        kind == 0x79 ==> token::next_of_kind(columns, kind, s) == token::next_return_status(s),
        kind == 0x81 ==> token::next_of_kind(columns, kind, s) == token::next_metadata(s),
        kind == 0xD1 ==> token::next_of_kind(columns, kind, s) == token::next_row(columns, s),
        kind == 0xD2 ==> token::next_of_kind(columns, kind, s) == token::next_nbc_row(columns, s),
{
    reveal(token::next_of_kind);
}

/// The end of a payload is the end, and a byte that begins no token this
/// crate reads is refused, which the failure names.
pub proof fn lemma_other_tokens_are_refused(columns: Seq<ColumnView>, kind: u8, rest: Seq<u8>)
    requires
        kind != 0xE3 && kind != 0xAA && kind != 0xAB && kind != 0xAD && kind != 0x81,
        kind != 0xD1 && kind != 0xD2 && kind != 0xFD && kind != 0xFE && kind != 0xFF,
        kind != 0x79 && kind != 0xA9,
    ensures
        token::next_token(columns, Seq::empty()) == (Ok::<Next, Fault>(None), Seq::<u8>::empty()),
        token::next_token(columns, seq![kind] + rest).0 == Err::<Next, Fault>(
            Fault {
                message: "token "@ + seq![
                    '0',
                    'x',
                    "0123456789abcdef"@[kind as int / 16],
                    "0123456789abcdef"@[kind as int % 16],
                ] + " is not one this crate reads"@,
                retryable: false,
            },
        ),
{
    reveal(token::next_of_kind);
    numbers::lemma_a_byte_is_named(kind);
}

/// The DONE of one of the three forms.
pub open spec fn done_of(kind: u8, status: u16, rows: u64) -> TokenView {
    if kind == 0xFD {
        TokenView::Done { status, rows }
    } else if kind == 0xFE {
        TokenView::DoneProc { status, rows }
    } else {
        TokenView::DoneInProc { status, rows }
    }
}

/// A DONE of any form says its status and its rows, whatever the command it
/// names: what those two bytes are makes no difference.
pub proof fn lemma_any_command_is_read_past(
    columns: Seq<ColumnView>,
    kind: u8,
    status: u16,
    command: u16,
    rows: u64,
    rest: Seq<u8>,
)
    requires
        kind == 0xFD || kind == 0xFE || kind == 0xFF,
    ensures
        token::next_done(
            kind,
            wire::le16(status) + wire::le16(command) + wire::le64(rows) + rest,
        ) == (Ok::<TokenView, Fault>(done_of(kind, status, rows)), rest),
        token::next_token(
            columns,
            seq![kind] + wire::le16(status) + wire::le16(command) + wire::le64(rows) + rest,
        ) == (Ok::<Next, Fault>(Some(done_of(kind, status, rows))), rest),
{
    let last = wire::le64(rows) + rest;
    let behind = wire::le16(command) + last;
    let s = wire::le16(status) + wire::le16(command) + wire::le64(rows) + rest;
    assert(s =~= wire::le16(status) + behind);
    wire::lemma_u16_reads_back(status, behind);
    assert(behind.skip(2) =~= last);
    wire::lemma_u64_reads_back(rows, rest);
    let whole = seq![kind] + wire::le16(status) + wire::le16(command) + wire::le64(rows) + rest;
    assert(whole =~= seq![kind] + s);
    lemma_behind_its_byte(columns, kind, s);
    lemma_of_a_plain_kind(columns, kind, s);
}

/// A DONE of any form is its thirteen bytes: the status, the command and the
/// rows, each the lowest byte first.
pub proof fn lemma_a_done_is_read(
    columns: Seq<ColumnView>,
    kind: u8,
    b: Seq<u8>,
    rest: Seq<u8>,
)
    requires
        kind == 0xFD || kind == 0xFE || kind == 0xFF,
        b.len() == 12,
    ensures
        token::next_token(columns, seq![kind] + b + rest) == (
            Ok::<Next, Fault>(
                Some(
                    done_of(
                        kind,
                        (b[0] + 256 * b[1]) as u16,
                        (b[4] + 0x100 * b[5] + 0x1_0000 * b[6] + 0x100_0000 * b[7] + 0x1_0000_0000
                            * b[8] + 0x100_0000_0000 * b[9] + 0x1_0000_0000_0000 * b[10]
                            + 0x100_0000_0000_0000 * b[11]) as u64,
                    ),
                ),
            ),
            rest,
        ),
        rest.len() < 12 ==> token::next_token(columns, seq![kind] + rest).0 == Err::<Next, Fault>(
            breaks_off(),
        ),
{
    let rows = b.skip(4);
    let s = seq![b[0], b[1]] + (seq![b[2], b[3]] + (rows + rest));
    assert(seq![kind] + b + rest =~= seq![kind] + s);
    lemma_behind_its_byte(columns, kind, s);
    lemma_of_a_plain_kind(columns, kind, s);
    lemma_behind_its_byte(columns, kind, rest);
    lemma_of_a_plain_kind(columns, kind, rest);
    numbers::lemma_two_bytes_are_read(
        b[0],
        b[1],
        seq![b[2], b[3]] + (rows + rest),
        Seq::empty(),
    );
    assert((seq![b[2], b[3]] + (rows + rest)).skip(2) =~= rows + rest);
    numbers::lemma_eight_bytes_are_read(rows, rest, Seq::empty());
}

/// A RETURNSTATUS is the number behind it.
pub proof fn lemma_a_return_status_is_read(columns: Seq<ColumnView>, status: i32, rest: Seq<u8>)
    ensures
        token::next_token(columns, seq![0x79u8] + wire::le_i32(status) + rest) == (
            Ok::<Next, Fault>(Some(TokenView::ReturnStatus(status))),
            rest,
        ),
        rest.len() < 4 ==> token::next_token(columns, seq![0x79u8] + rest).0 == Err::<Next, Fault>(
            breaks_off(),
        ),
{
    let s = wire::le_i32(status) + rest;
    wire::lemma_i32_reads_back(status, rest);
    assert(seq![0x79u8] + wire::le_i32(status) + rest =~= seq![0x79u8] + s);
    lemma_behind_its_byte(columns, 0x79, s);
    lemma_of_a_plain_kind(columns, 0x79, s);
    lemma_behind_its_byte(columns, 0x79, rest);
    lemma_of_a_plain_kind(columns, 0x79, rest);
}

// Tokens whose body carries its length.

/// A body is as long as its length says, and whatever it says, what follows
/// it is read next; one that breaks off is a failure.
pub proof fn lemma_a_body_is_read_by_its_length(
    columns: Seq<ColumnView>,
    kind: u8,
    a: u8,
    b: u8,
    body: Seq<u8>,
    rest: Seq<u8>,
)
    requires
        kind == 0xE3 || kind == 0xAA || kind == 0xAB || kind == 0xAD || kind == 0xA9,
        body.len() == a + 256 * b,
    ensures
        token::next_token(columns, seq![kind, a, b] + body + rest) == (
            match token::framed_in(kind, body) {
                Ok(token) => Ok::<Next, Fault>(Some(token)),
                Err(fault) => Err(fault),
            },
            rest,
        ),
        rest.len() < body.len() ==> token::next_token(columns, seq![kind, a, b] + rest).0 == Err::<
            Next,
            Fault,
        >(breaks_off()),
        rest.len() < 2 ==> token::next_token(columns, seq![kind] + rest).0 == Err::<Next, Fault>(
            breaks_off(),
        ),
{
    let s = seq![a, b] + (body + rest);
    assert(seq![kind, a, b] + body + rest =~= seq![kind] + s);
    lemma_behind_its_byte(columns, kind, s);
    lemma_of_a_framed_kind(columns, kind, s);
    numbers::lemma_two_bytes_are_read(a, b, body + rest, Seq::empty());
    wire::lemma_take_reads_back(body, rest);
    let short = seq![a, b] + rest;
    assert(seq![kind, a, b] + rest =~= seq![kind] + short);
    lemma_behind_its_byte(columns, kind, short);
    lemma_of_a_framed_kind(columns, kind, short);
    numbers::lemma_two_bytes_are_read(a, b, rest, Seq::empty());
    lemma_behind_its_byte(columns, kind, rest);
    lemma_of_a_framed_kind(columns, kind, rest);
}

/// `bytes` of UTF-16 behind a byte that counts their units.
pub open spec fn counted(bytes: Seq<u8>) -> Seq<u8> {
    seq![(bytes.len() / 2) as u8] + bytes
}

/// `bytes` of UTF-16 behind a u16 that counts their units, the low byte
/// first.
pub open spec fn long_counted(bytes: Seq<u8>) -> Seq<u8> {
    seq![(bytes.len() / 2 % 256) as u8, (bytes.len() / 2 / 256) as u8] + bytes
}

/// True of UTF-16 that a byte can count the units of.
pub open spec fn is_counted(bytes: Seq<u8>) -> bool {
    bytes.len() % 2 == 0 && bytes.len() <= 510
}

/// An INFO and an ERROR say their number, state, severity, text, server,
/// procedure and line, whatever these are and whatever follows them.
pub proof fn lemma_a_message_is_read(
    number: i32,
    state: u8,
    class: u8,
    said: Seq<u8>,
    server: Seq<u8>,
    procedure: Seq<u8>,
    line: u32,
    more: Seq<u8>,
)
    requires
        said.len() % 2 == 0 && said.len() <= 131070,
        is_counted(server),
        is_counted(procedure),
    ensures
        ({
            let body = wire::le_i32(number) + (seq![state, class] + (long_counted(said) + (counted(
                server,
            ) + (counted(procedure) + (wire::le32(line) + more)))));
            let message = MessageView {
                number,
                state,
                class,
                text: wire::ucs2_text(said),
                server: wire::ucs2_text(server),
                procedure: wire::ucs2_text(procedure),
                line,
            };
            &&& token::framed_in(0xAB, body) == Ok::<TokenView, Fault>(TokenView::Info(message))
            &&& token::framed_in(0xAA, body) == Ok::<TokenView, Fault>(TokenView::Error(message))
        }),
{
    let origin = counted(server) + (counted(procedure) + (wire::le32(line) + more));
    lemma_a_cause_is_read(number, state, class, said, origin);
    lemma_an_origin_is_read(server, procedure, line, more);
}

/// The number, the state, the severity and the text of a message.
#[verifier::spinoff_prover]
proof fn lemma_a_cause_is_read(number: i32, state: u8, class: u8, said: Seq<u8>, rest: Seq<u8>)
    requires
        said.len() % 2 == 0 && said.len() <= 131070,
    ensures
        token::next_cause(
            wire::le_i32(number) + (seq![state, class] + (long_counted(said) + rest)),
        ) == (
            Ok::<(i32, u8, u8, Seq<char>), Fault>((number, state, class, wire::ucs2_text(said))),
            rest,
        ),
{
    reveal(token::next_cause);
    let s2 = long_counted(said) + rest;
    let s1 = seq![state, class] + s2;
    wire::lemma_i32_reads_back(number, s1);
    assert(s1.skip(1) =~= seq![class] + s2);
    assert((seq![class] + s2).skip(1) =~= s2);
    texts::lemma_counted_text_is_read(said, rest);
}

/// The server, the procedure and the line of a message.
#[verifier::spinoff_prover]
proof fn lemma_an_origin_is_read(
    server: Seq<u8>,
    procedure: Seq<u8>,
    line: u32,
    more: Seq<u8>,
)
    requires
        is_counted(server),
        is_counted(procedure),
    ensures
        token::next_origin(
            counted(server) + (counted(procedure) + (wire::le32(line) + more)),
        ) == (
            Ok::<(Seq<char>, Seq<char>, u32), Fault>(
                (wire::ucs2_text(server), wire::ucs2_text(procedure), line),
            ),
            more,
        ),
{
    reveal(token::next_origin);
    let s2 = wire::le32(line) + more;
    let s1 = counted(procedure) + s2;
    texts::lemma_counted_text_is_read(server, s1);
    texts::lemma_counted_text_is_read(procedure, s2);
    wire::lemma_u32_reads_back(line, more);
}

/// An INFO and an ERROR that break off ahead of their text are a failure.
pub proof fn lemma_a_message_breaks_off_ahead_of_its_text(short: Seq<u8>)
    requires
        short.len() < 6,
    ensures
        token::framed_in(0xAB, short) == Err::<TokenView, Fault>(breaks_off()),
        token::framed_in(0xAA, short) == Err::<TokenView, Fault>(breaks_off()),
{
    reveal(token::next_cause);
    if short.len() == 5 {
        assert(short.skip(4).skip(1) =~= Seq::empty());
    }
}

/// An INFO and an ERROR that break off in their text are a failure, the one
/// that reading the text is.
pub proof fn lemma_a_message_breaks_off_in_its_text(head: Seq<u8>, s: Seq<u8>, fault: Fault)
    requires
        head.len() == 6,
        wire::next_us_varchar(s).0 == Err::<Seq<char>, Fault>(fault),
    ensures
        token::framed_in(0xAB, head + s) == Err::<TokenView, Fault>(fault),
        token::framed_in(0xAA, head + s) == Err::<TokenView, Fault>(fault),
{
    lemma_behind_the_severity(head, s);
}

/// An INFO and an ERROR that break off behind their text are a failure: in
/// the server's name, in the procedure's, and in the line.
pub proof fn lemma_a_message_breaks_off_behind_its_text(
    head: Seq<u8>,
    said: Seq<u8>,
    server: Seq<u8>,
    s: Seq<u8>,
    fault: Fault,
    procedure: Seq<u8>,
    short: Seq<u8>,
)
    requires
        head.len() == 6,
        said.len() % 2 == 0 && said.len() <= 131070,
        is_counted(server),
        is_counted(procedure),
        wire::next_b_varchar(s).0 == Err::<Seq<char>, Fault>(fault),
        short.len() < 4,
    ensures
        ({
            let in_server = head + (long_counted(said) + s);
            let in_procedure = head + (long_counted(said) + (counted(server) + s));
            let in_line = head + (long_counted(said) + (counted(server) + (counted(procedure)
                + short)));
            &&& token::framed_in(0xAB, in_server) == Err::<TokenView, Fault>(fault)
            &&& token::framed_in(0xAA, in_server) == Err::<TokenView, Fault>(fault)
            &&& token::framed_in(0xAB, in_procedure) == Err::<TokenView, Fault>(fault)
            &&& token::framed_in(0xAA, in_procedure) == Err::<TokenView, Fault>(fault)
            &&& token::framed_in(0xAB, in_line) == Err::<TokenView, Fault>(breaks_off())
            &&& token::framed_in(0xAA, in_line) == Err::<TokenView, Fault>(breaks_off())
        }),
{
    lemma_behind_the_text(head, said, s);
    lemma_behind_the_text(head, said, counted(server) + s);
    lemma_behind_the_text(head, said, counted(server) + (counted(procedure) + short));
    texts::lemma_counted_text_is_read(server, s);
    texts::lemma_counted_text_is_read(server, counted(procedure) + short);
    texts::lemma_counted_text_is_read(procedure, short);
    reveal(token::next_origin);
}

/// What a message fails with behind its text, it fails with.
proof fn lemma_behind_the_text(head: Seq<u8>, said: Seq<u8>, rest: Seq<u8>)
    requires
        head.len() == 6,
        said.len() % 2 == 0 && said.len() <= 131070,
    ensures
        token::next_origin(rest).0 matches Err(fault) ==> {
            &&& token::framed_in(0xAB, head + (long_counted(said) + rest)) == Err::<
                TokenView,
                Fault,
            >(fault)
            &&& token::framed_in(0xAA, head + (long_counted(said) + rest)) == Err::<
                TokenView,
                Fault,
            >(fault)
        },
{
    lemma_behind_the_severity(head, long_counted(said) + rest);
    texts::lemma_counted_text_is_read(said, rest);
}

/// The text of a message is read behind its number, state and severity.
proof fn lemma_behind_the_severity(head: Seq<u8>, rest: Seq<u8>)
    requires
        head.len() == 6,
    ensures
        token::next_cause(head + rest).0 is Err <==> wire::next_us_varchar(rest).0 is Err,
        match wire::next_us_varchar(rest) {
            (Ok(said), behind) => token::next_cause(head + rest).1 == behind,
            (Err(fault), _) => token::next_cause(head + rest).0 == Err::<
                (i32, u8, u8, Seq<char>),
                Fault,
            >(fault),
        },
{
    reveal(token::next_cause);
    let s = head + rest;
    let behind = seq![head[4], head[5]] + rest;
    assert(s.skip(4) =~= behind);
    assert(behind.skip(1) =~= seq![head[5]] + rest);
    assert((seq![head[5]] + rest).skip(1) =~= rest);
}

/// An ENVCHANGE of the first six kinds says what is and what was, whatever
/// follows; of any other kind it says nothing, whatever its body is.
pub proof fn lemma_a_change_is_read(kind: u8, new: Seq<u8>, was: Seq<u8>, more: Seq<u8>)
    requires
        is_counted(new),
        is_counted(was),
    ensures
        1 <= kind <= 6 ==> token::framed_in(
            0xE3,
            seq![kind] + (counted(new) + (counted(was) + more)),
        ) == Ok::<TokenView, Fault>(
            TokenView::EnvChange { kind, new: wire::ucs2_text(new), old: wire::ucs2_text(was) },
        ),
        !(1 <= kind <= 6) ==> token::framed_in(0xE3, seq![kind] + more) == Ok::<TokenView, Fault>(
            TokenView::EnvChange { kind, new: Seq::empty(), old: Seq::empty() },
        ),
        token::framed_in(0xE3, Seq::empty()) == Err::<TokenView, Fault>(breaks_off()),
{
    let behind = counted(was) + more;
    let s = counted(new) + behind;
    assert((seq![kind] + s).skip(1) =~= s);
    assert((seq![kind] + more).skip(1) =~= more);
    texts::lemma_counted_text_is_read(new, behind);
    texts::lemma_counted_text_is_read(was, more);
}

/// An ENVCHANGE of the first six kinds that breaks off in what is or in what
/// was is a failure, the one that reading that is.
pub proof fn lemma_a_change_breaks_off(kind: u8, new: Seq<u8>, s: Seq<u8>, fault: Fault)
    requires
        1 <= kind <= 6,
        is_counted(new),
        wire::next_b_varchar(s).0 == Err::<Seq<char>, Fault>(fault),
    ensures
        token::framed_in(0xE3, seq![kind] + s) == Err::<TokenView, Fault>(fault),
        token::framed_in(0xE3, seq![kind] + (counted(new) + s)) == Err::<TokenView, Fault>(fault),
{
    assert((seq![kind] + s).skip(1) =~= s);
    assert((seq![kind] + (counted(new) + s)).skip(1) =~= counted(new) + s);
    texts::lemma_counted_text_is_read(new, s);
}

/// A LOGINACK says the version, the highest byte first, and the program,
/// whatever its interface and whatever follows.
#[verifier::spinoff_prover]
pub proof fn lemma_an_acknowledgement_is_read(
    interface: u8,
    version: u32,
    program: Seq<u8>,
    more: Seq<u8>,
)
    requires
        is_counted(program),
    ensures
        token::framed_in(
            0xAD,
            seq![interface] + (wire::be32(version) + (counted(program) + more)),
        ) == Ok::<TokenView, Fault>(
            TokenView::LoginAck { version, program: wire::ucs2_text(program) },
        ),
{
    let behind = counted(program) + more;
    let s = wire::be32(version) + behind;
    lemma_behind_the_interface(interface, s);
    wire::lemma_u32_reads_back(version, behind);
    texts::lemma_counted_text_is_read(program, more);
}

/// The version and the program are read behind the interface.
proof fn lemma_behind_the_interface(interface: u8, s: Seq<u8>)
    ensures
        wire::next_skip(seq![interface] + s, 1) == (Ok::<(), Fault>(()), s),
{
    assert((seq![interface] + s).skip(1) =~= s);
}

/// A LOGINACK that breaks off is a failure: ahead of the program, and in it.
#[verifier::spinoff_prover]
pub proof fn lemma_an_acknowledgement_breaks_off(
    interface: u8,
    version: u32,
    short: Seq<u8>,
    s: Seq<u8>,
    fault: Fault,
)
    requires
        short.len() < 4,
        wire::next_b_varchar(s).0 == Err::<Seq<char>, Fault>(fault),
    ensures
        token::framed_in(0xAD, Seq::empty()) == Err::<TokenView, Fault>(breaks_off()),
        token::framed_in(0xAD, seq![interface] + short) == Err::<TokenView, Fault>(breaks_off()),
        token::framed_in(0xAD, seq![interface] + (wire::be32(version) + s)) == Err::<
            TokenView,
            Fault,
        >(fault),
{
    lemma_behind_the_interface(interface, short);
    lemma_behind_the_interface(interface, wire::be32(version) + s);
    wire::lemma_u32_reads_back(version, s);
}

/// An ORDER says the numbers of its columns, each the low byte first; half a
/// number is a failure.
pub proof fn lemma_an_order_is_read(body: Seq<u8>)
    ensures
        body.len() % 2 == 0 ==> token::framed_in(0xA9, body) == Ok::<TokenView, Fault>(
            TokenView::Order(
                Seq::new(
                    body.len() / 2,
                    |i: int| (body[2 * i] + 256 * body[2 * i + 1]) as u16,
                ),
            ),
        ),
        body.len() % 2 == 1 ==> token::framed_in(0xA9, body) == Err::<TokenView, Fault>(
            breaks_off(),
        ),
{
    assert(text::byte_units(body) =~= Seq::new(
        body.len() / 2,
        |i: int| (body[2 * i] + 256 * body[2 * i + 1]) as u16,
    ));
}

// Columns and rows.

/// A column is its type and its name, whatever its user type and its flags:
/// what those six bytes are makes no difference.
pub proof fn lemma_a_column_is_read(six: Seq<u8>, s: Seq<u8>)
    requires
        six.len() == 6,
    ensures
        match column::next_type_info(s) {
            (Ok(kind), behind) => match wire::next_b_varchar(behind) {
                (Ok(name), rest) => token::next_column(six + s) == (
                    Ok::<ColumnView, Fault>(ColumnView { name, kind }),
                    rest,
                ),
                (Err(fault), _) => token::next_column(six + s).0 == Err::<ColumnView, Fault>(fault),
            },
            (Err(fault), _) => token::next_column(six + s).0 == Err::<ColumnView, Fault>(fault),
        },
        s.len() < 6 ==> token::next_column(s).0 == Err::<ColumnView, Fault>(breaks_off()),
{
    reveal(token::next_column);
    assert((six + s).skip(6) =~= s);
}

/// A text column of any collation and any flags is a column of that length
/// and that name.
pub proof fn lemma_a_text_column_is_read(
    six: Seq<u8>,
    max: u16,
    collation: Seq<u8>,
    name: Seq<u8>,
    rest: Seq<u8>,
)
    requires
        six.len() == 6,
        collation.len() == 5,
        is_counted(name),
    ensures
        token::next_column(
            six + (seq![0xE7u8] + wire::le16(max) + collation + (counted(name) + rest)),
        ) == (
            Ok::<ColumnView, Fault>(
                ColumnView { name: wire::ucs2_text(name), kind: ColumnType::NVarChar(max) },
            ),
            rest,
        ),
        token::next_column(
            six + (seq![0xA7u8] + wire::le16(max) + collation + (counted(name) + rest)),
        ) == (
            Ok::<ColumnView, Fault>(
                ColumnView { name: wire::ucs2_text(name), kind: ColumnType::VarChar(max) },
            ),
            rest,
        ),
{
    let behind = counted(name) + rest;
    crate::laws::values::lemma_collations_make_no_difference(max, collation, behind);
    texts::lemma_counted_text_is_read(name, rest);
    lemma_a_column_is_read(six, seq![0xE7u8] + wire::le16(max) + collation + behind);
    lemma_a_column_is_read(six, seq![0xA7u8] + wire::le16(max) + collation + behind);
}

/// A COLMETADATA declares as many columns as it counts, each read behind the
/// one before it, and none where its count says so.
pub proof fn lemma_columns_are_declared(
    columns: Seq<ColumnView>,
    parts: Seq<Seq<u8>>,
    declared: Seq<ColumnView>,
    rest: Seq<u8>,
)
    requires
        parts.len() == declared.len(),
        declared.len() < 0xFFFF,
        forall|i: int, behind: Seq<u8>|
            0 <= i < parts.len() ==> #[trigger] token::next_column(parts[i] + behind) == (
                Ok::<ColumnView, Fault>(declared[i]),
                behind,
            ),
    ensures
        token::next_token(
            columns,
            seq![0x81u8, (declared.len() % 256) as u8, (declared.len() / 256) as u8] + joined(parts)
                + rest,
        ) == (Ok::<Next, Fault>(Some(TokenView::ColMetadata(declared))), rest),
        token::next_token(columns, seq![0x81u8, 0xFFu8, 0xFFu8] + rest) == (
            Ok::<Next, Fault>(Some(TokenView::ColMetadata(Seq::empty()))),
            rest,
        ),
        rest.len() < 2 ==> token::next_token(columns, seq![0x81u8] + rest).0 == Err::<Next, Fault>(
            breaks_off(),
        ),
{
    let a = (declared.len() % 256) as u8;
    let b = (declared.len() / 256) as u8;
    let s = seq![a, b] + (joined(parts) + rest);
    assert(seq![0x81u8, a, b] + joined(parts) + rest =~= seq![0x81u8] + s);
    lemma_behind_its_byte(columns, 0x81, s);
    lemma_of_a_plain_kind(columns, 0x81, s);
    numbers::lemma_two_bytes_are_read(a, b, joined(parts) + rest, Seq::empty());
    lemma_columns_in_turn(parts, declared, rest);
    let none = seq![0xFFu8, 0xFFu8] + rest;
    assert(seq![0x81u8, 0xFFu8, 0xFFu8] + rest =~= seq![0x81u8] + none);
    lemma_behind_its_byte(columns, 0x81, none);
    lemma_of_a_plain_kind(columns, 0x81, none);
    numbers::lemma_two_bytes_are_read(0xFF, 0xFF, rest, Seq::empty());
    lemma_behind_its_byte(columns, 0x81, rest);
    lemma_of_a_plain_kind(columns, 0x81, rest);
}

/// Columns are read one behind the other.
proof fn lemma_columns_in_turn(
    parts: Seq<Seq<u8>>,
    declared: Seq<ColumnView>,
    rest: Seq<u8>,
)
    requires
        parts.len() == declared.len(),
        forall|i: int, behind: Seq<u8>|
            0 <= i < parts.len() ==> #[trigger] token::next_column(parts[i] + behind) == (
                Ok::<ColumnView, Fault>(declared[i]),
                behind,
            ),
    ensures
        token::next_columns(joined(parts) + rest, declared.len()) == (
            Ok::<Seq<ColumnView>, Fault>(declared),
            rest,
        ),
    decreases parts.len(),
{
    if parts.len() == 0 {
        assert(joined(parts) + rest =~= rest);
        assert(declared =~= Seq::empty());
    } else {
        let others = parts.skip(1);
        let behind = joined(others) + rest;
        assert(joined(parts) + rest =~= parts[0] + behind);
        assert(token::next_column(parts[0] + behind) == (
            Ok::<ColumnView, Fault>(declared[0]),
            behind,
        ));
        assert forall|i: int, after: Seq<u8>|
            0 <= i < others.len() implies #[trigger] token::next_column(others[i] + after) == (
            Ok::<ColumnView, Fault>(declared.skip(1)[i]),
            after,
        ) by {
            assert(token::next_column(parts[i + 1] + after) == (
                Ok::<ColumnView, Fault>(declared[i + 1]),
                after,
            ));
        }
        lemma_columns_in_turn(others, declared.skip(1), rest);
        assert(seq![declared[0]] + declared.skip(1) =~= declared);
    }
}

/// A COLMETADATA fails where one of its columns does, whatever those before
/// it are.
pub proof fn lemma_a_broken_column_breaks_them_all(
    columns: Seq<ColumnView>,
    column: Seq<u8>,
    read: ColumnView,
    s: Seq<u8>,
    more: nat,
    a: u8,
    b: u8,
    fault: Fault,
)
    ensures
        token::next_column(s).0 == Err::<ColumnView, Fault>(fault) ==> token::next_columns(
            s,
            more + 1,
        ).0 == Err::<Seq<ColumnView>, Fault>(fault),
        token::next_column(column + s) == (Ok::<ColumnView, Fault>(read), s) && token::next_columns(
            s,
            more,
        ).0 == Err::<Seq<ColumnView>, Fault>(fault) ==> token::next_columns(column + s, more + 1).0
            == Err::<Seq<ColumnView>, Fault>(fault),
        a + 256 * b != 0xFFFF && token::next_columns(s, (a + 256 * b) as nat).0 == Err::<
            Seq<ColumnView>,
            Fault,
        >(fault) ==> token::next_token(columns, seq![0x81u8, a, b] + s).0 == Err::<Next, Fault>(
            fault,
        ),
{
    let behind = seq![a, b] + s;
    assert(seq![0x81u8, a, b] + s =~= seq![0x81u8] + behind);
    lemma_behind_its_byte(columns, 0x81, behind);
    lemma_of_a_plain_kind(columns, 0x81, behind);
    numbers::lemma_two_bytes_are_read(a, b, s, Seq::empty());
}

/// A row fails where one of its cells does, whatever those before it are.
pub proof fn lemma_a_broken_cell_breaks_the_row(
    columns: Seq<ColumnView>,
    bitmap: Option<Seq<u8>>,
    index: nat,
    s: Seq<u8>,
    rest: Seq<u8>,
    value: Value,
    bits: Seq<u8>,
    fault: Fault,
)
    requires
        index < columns.len(),
        bits.len() == (columns.len() + 7) / 8,
    ensures
        !token::is_absent(bitmap, index as int) && column::next_cell(
            s,
            columns[index as int].kind,
        ).0 == Err::<Value, Fault>(fault) ==> token::next_cells(s, columns, bitmap, index).0
            == Err::<Seq<Value>, Fault>(fault),
        !token::is_absent(bitmap, index as int) && column::next_cell(s, columns[index as int].kind)
            == (Ok::<Value, Fault>(value), rest) && token::next_cells(
            rest,
            columns,
            bitmap,
            index + 1,
        ).0 == Err::<Seq<Value>, Fault>(fault) ==> token::next_cells(s, columns, bitmap, index).0
            == Err::<Seq<Value>, Fault>(fault),
        token::is_absent(bitmap, index as int) && token::next_cells(
            s,
            columns,
            bitmap,
            index + 1,
        ).0 == Err::<Seq<Value>, Fault>(fault) ==> token::next_cells(s, columns, bitmap, index).0
            == Err::<Seq<Value>, Fault>(fault),
        token::next_cells(s, columns, None, 0).0 == Err::<Seq<Value>, Fault>(fault)
            ==> token::next_token(columns, seq![0xD1u8] + s).0 == Err::<Next, Fault>(fault),
        token::next_cells(s, columns, Some(bits), 0).0 == Err::<Seq<Value>, Fault>(fault)
            ==> token::next_token(columns, seq![0xD2u8] + (bits + s)).0 == Err::<Next, Fault>(
            fault,
        ),
{
    lemma_behind_its_byte(columns, 0xD1, s);
    lemma_of_a_plain_kind(columns, 0xD1, s);
    lemma_behind_its_byte(columns, 0xD2, bits + s);
    lemma_of_a_plain_kind(columns, 0xD2, bits + s);
    wire::lemma_take_reads_back(bits, s);
}

/// Two to the power `k`, of a byte.
pub open spec fn weight(k: int) -> int {
    if k == 0 {
        1
    } else if k == 1 {
        2
    } else if k == 2 {
        4
    } else if k == 3 {
        8
    } else if k == 4 {
        16
    } else if k == 5 {
        32
    } else if k == 6 {
        64
    } else {
        128
    }
}

/// A bitmap marks a column where the bit at its place in it is set, the
/// lowest of a byte being the first.
pub proof fn lemma_a_bitmap_marks_by_bits(bits: Seq<u8>, index: int)
    requires
        0 <= index < 8 * bits.len(),
    ensures
        token::is_absent(Some(bits), index) <==> bits[index / 8] as int / weight(index % 8) % 2
            == 1,
        !token::is_absent(None, index),
{
    let b = bits[index / 8];
    let k = (index % 8) as u8;
    assert(b & (1u8 << k) != 0 <==> (b >> k) % 2 == 1) by (bit_vector)
        requires
            k < 8,
    ;
    assert((b >> 0u8) == b) by (bit_vector);
    assert((b >> 1u8) == b / 2) by (bit_vector);
    assert((b >> 2u8) == b / 4) by (bit_vector);
    assert((b >> 3u8) == b / 8) by (bit_vector);
    assert((b >> 4u8) == b / 16) by (bit_vector);
    assert((b >> 5u8) == b / 32) by (bit_vector);
    assert((b >> 6u8) == b / 64) by (bit_vector);
    assert((b >> 7u8) == b / 128) by (bit_vector);
    assert(k == 0 || k == 1 || k == 2 || k == 3 || k == 4 || k == 5 || k == 6 || k == 7);
}

/// Cells are read one behind the other, nothing being read for those marked.
proof fn lemma_cells_in_turn(
    columns: Seq<ColumnView>,
    bitmap: Option<Seq<u8>>,
    cells: Seq<Seq<u8>>,
    values: Seq<Value>,
    index: nat,
    rest: Seq<u8>,
)
    requires
        index <= columns.len(),
        cells.len() == columns.len(),
        values.len() == columns.len(),
        forall|i: int|
            0 <= i < columns.len() && #[trigger] token::is_absent(bitmap, i) ==> cells[i].len() == 0
                && values[i] is None,
        forall|i: int, behind: Seq<u8>|
            0 <= i < columns.len() && !token::is_absent(bitmap, i)
                ==> #[trigger] column::next_cell(cells[i] + behind, columns[i].kind) == (
                Ok::<Value, Fault>(values[i]),
                behind,
            ),
    ensures
        token::next_cells(joined(cells.skip(index as int)) + rest, columns, bitmap, index) == (
            Ok::<Seq<Value>, Fault>(values.skip(index as int)),
            rest,
        ),
    decreases columns.len() - index,
{
    let part = cells.skip(index as int);
    if index == columns.len() {
        assert(joined(part) + rest =~= rest);
        assert(values.skip(index as int) =~= Seq::empty());
    } else {
        let cell = cells[index as int];
        let value = values[index as int];
        let behind = joined(cells.skip(index as int + 1)) + rest;
        assert(part.skip(1) =~= cells.skip(index as int + 1));
        assert(joined(part) + rest =~= cell + behind);
        lemma_cells_in_turn(columns, bitmap, cells, values, index + 1, rest);
        assert(values.skip(index as int) =~= seq![value] + values.skip(index as int + 1));
        if token::is_absent(bitmap, index as int) {
            assert(cell + behind =~= behind);
        } else {
            assert(column::next_cell(cell + behind, columns[index as int].kind) == (
                Ok::<Value, Fault>(value),
                behind,
            ));
        }
    }
}

/// A row is its cells, one for every column in force, each read by its
/// column's type behind the one before it.
pub proof fn lemma_a_row_is_its_cells(
    columns: Seq<ColumnView>,
    cells: Seq<Seq<u8>>,
    values: Seq<Value>,
    rest: Seq<u8>,
)
    requires
        cells.len() == columns.len(),
        values.len() == columns.len(),
        forall|i: int, behind: Seq<u8>|
            0 <= i < columns.len() ==> #[trigger] column::next_cell(
                cells[i] + behind,
                columns[i].kind,
            ) == (Ok::<Value, Fault>(values[i]), behind),
    ensures
        token::next_token(columns, seq![0xD1u8] + (joined(cells) + rest)) == (
            Ok::<Next, Fault>(Some(TokenView::Row(values))),
            rest,
        ),
{
    lemma_cells_in_turn(columns, None, cells, values, 0, rest);
    assert(cells.skip(0) =~= cells);
    assert(values.skip(0) =~= values);
    lemma_behind_its_byte(columns, 0xD1, joined(cells) + rest);
    lemma_of_a_plain_kind(columns, 0xD1, joined(cells) + rest);
}

/// A row behind a bitmap is null where a column is marked, with no cell for
/// it, and its cells elsewhere.
pub proof fn lemma_a_marked_row_is_its_other_cells(
    columns: Seq<ColumnView>,
    bits: Seq<u8>,
    cells: Seq<Seq<u8>>,
    values: Seq<Value>,
    rest: Seq<u8>,
)
    requires
        bits.len() == (columns.len() + 7) / 8,
        cells.len() == columns.len(),
        values.len() == columns.len(),
        forall|i: int|
            0 <= i < columns.len() && #[trigger] token::is_absent(Some(bits), i) ==> cells[i].len()
                == 0 && values[i] is None,
        forall|i: int, behind: Seq<u8>|
            0 <= i < columns.len() && !token::is_absent(Some(bits), i)
                ==> #[trigger] column::next_cell(cells[i] + behind, columns[i].kind) == (
                Ok::<Value, Fault>(values[i]),
                behind,
            ),
    ensures
        token::next_token(columns, seq![0xD2u8] + (bits + (joined(cells) + rest))) == (
            Ok::<Next, Fault>(Some(TokenView::Row(values))),
            rest,
        ),
        rest.len() < bits.len() ==> token::next_token(columns, seq![0xD2u8] + rest).0 == Err::<
            Next,
            Fault,
        >(breaks_off()),
{
    lemma_cells_in_turn(columns, Some(bits), cells, values, 0, rest);
    assert(cells.skip(0) =~= cells);
    assert(values.skip(0) =~= values);
    wire::lemma_take_reads_back(bits, joined(cells) + rest);
    let s = bits + (joined(cells) + rest);
    lemma_behind_its_byte(columns, 0xD2, s);
    lemma_of_a_plain_kind(columns, 0xD2, s);
    lemma_behind_its_byte(columns, 0xD2, rest);
    lemma_of_a_plain_kind(columns, 0xD2, rest);
}

/// A row that has been read has a value for every column in force.
pub proof fn lemma_a_row_has_a_value_for_every_column(
    columns: Seq<ColumnView>,
    s: Seq<u8>,
    bitmap: Option<Seq<u8>>,
    index: nat,
)
    requires
        index <= columns.len(),
    ensures
        token::next_cells(s, columns, bitmap, index).0 matches Ok(values) ==> values.len()
            == columns.len() - index,
    decreases columns.len() - index,
{
    if index < columns.len() {
        let rest = if token::is_absent(bitmap, index as int) {
            s
        } else {
            column::next_cell(s, columns[index as int].kind).1
        };
        lemma_a_row_has_a_value_for_every_column(columns, rest, bitmap, index + 1);
    }
}

// A payload.

/// A payload is its tokens in order, each read behind the one before it and
/// a row by the columns last declared; the first that cannot be read ends it.
pub proof fn lemma_a_payload_is_its_tokens(columns: Seq<ColumnView>, s: Seq<u8>)
    ensures
        match token::next_token(columns, s) {
            (Ok(None), _) => token::tokens_in(columns, s) == (
                Seq::<TokenView>::empty(),
                None::<Fault>,
            ),
            (Err(fault), _) => token::tokens_in(columns, s) == (
                Seq::<TokenView>::empty(),
                Some(fault),
            ),
            (Ok(Some(read)), rest) => {
                let others = token::tokens_in(
                    match read {
                        TokenView::ColMetadata(declared) => declared,
                        _ => columns,
                    },
                    rest,
                );
                token::tokens_in(columns, s) == (seq![read] + others.0, others.1)
            },
        },
{
}

// Writing.

/// Tokens without a length of their own are written as they are read.
pub proof fn lemma_plain_tokens_are_written(
    columns: Seq<ColumnView>,
    status: u16,
    rows: u64,
    returned: i32,
)
    ensures
        ({
            let behind = wire::le16(status) + seq![0u8, 0u8] + wire::le64(rows);
            &&& token::token_bytes(columns, TokenView::Done { status, rows }) == seq![0xFDu8]
                + behind
            &&& token::token_bytes(columns, TokenView::DoneProc { status, rows }) == seq![0xFEu8]
                + behind
            &&& token::token_bytes(columns, TokenView::DoneInProc { status, rows }) == seq![0xFFu8]
                + behind
        }),
        token::token_bytes(columns, TokenView::ReturnStatus(returned)) == seq![0x79u8]
            + wire::le_i32(returned),
{
    let behind = wire::le16(status) + seq![0u8, 0u8] + wire::le64(rows);
    assert(wire::le16(0) =~= seq![0u8, 0u8]);
    assert(token::done_bytes(0xFD, status, rows) =~= seq![0xFDu8] + behind);
    assert(token::done_bytes(0xFE, status, rows) =~= seq![0xFEu8] + behind);
    assert(token::done_bytes(0xFF, status, rows) =~= seq![0xFFu8] + behind);
}

/// `body` behind the token's byte and its length, as far as sixteen bits can
/// say it.
pub open spec fn framed(kind: u8, body: Seq<u8>) -> Seq<u8> {
    let n = if body.len() < 65536 {
        body.len()
    } else {
        65535
    };
    seq![kind, (n % 256) as u8, (n / 256) as u8] + body
}

/// An INFO and an ERROR are written behind their length, the fields in the
/// order they are read.
pub proof fn lemma_messages_are_written(columns: Seq<ColumnView>, message: MessageView)
    ensures
        ({
            let body = wire::le_i32(message.number) + seq![message.state, message.class]
                + wire::us_varchar_bytes(message.text) + (wire::b_varchar_bytes(message.server)
                + wire::b_varchar_bytes(message.procedure) + wire::le32(message.line));
            &&& token::token_bytes(columns, TokenView::Info(message)) == framed(0xAB, body)
            &&& token::token_bytes(columns, TokenView::Error(message)) == framed(0xAA, body)
        }),
{
    lemma_a_body_is_framed(0xAB, token::message_body(message));
    lemma_a_body_is_framed(0xAA, token::message_body(message));
}

/// A change, an acknowledgement and an order are written behind their length,
/// the fields in the order they are read.
pub proof fn lemma_framed_tokens_are_written(
    columns: Seq<ColumnView>,
    kind: u8,
    new: Seq<char>,
    was: Seq<char>,
    version: u32,
    program: Seq<char>,
    numbers: Seq<u16>,
)
    ensures
        token::token_bytes(columns, TokenView::EnvChange { kind, new, old: was }) == framed(
            0xE3,
            seq![kind] + wire::b_varchar_bytes(new) + wire::b_varchar_bytes(was),
        ),
        token::token_bytes(columns, TokenView::LoginAck { version, program }) == framed(
            0xAD,
            seq![1u8] + wire::be32(version) + wire::b_varchar_bytes(program) + seq![
                16u8,
                0u8,
                0u8,
                0u8,
            ],
        ),
        token::token_bytes(columns, TokenView::Order(numbers)) == framed(
            0xA9,
            text::unit_bytes(numbers),
        ),
{
    lemma_a_body_is_framed(0xE3, token::env_change_body(kind, new, was));
    assert(seq![16u8, 0, 0, 0] =~= seq![16u8, 0u8, 0u8, 0u8]);
    lemma_a_body_is_framed(0xAD, token::login_ack_body(version, program));
    lemma_a_body_is_framed(0xA9, text::unit_bytes(numbers));
}

/// A body stands behind its token's byte and its length.
proof fn lemma_a_body_is_framed(kind: u8, body: Seq<u8>)
    ensures
        token::with_length(kind, body) == framed(kind, body),
{
    assert(token::with_length(kind, body) =~= framed(kind, body));
}

/// A COLMETADATA is written as its columns in order behind their number, as
/// far as that can be said short of the number that says none.
pub proof fn lemma_columns_are_written(
    columns: Seq<ColumnView>,
    declared: Seq<ColumnView>,
    column: ColumnView,
)
    ensures
        token::token_bytes(columns, TokenView::ColMetadata(Seq::empty())) == seq![
            0x81u8,
            0xFFu8,
            0xFFu8,
        ],
        declared.len() > 0 ==> ({
            let n = if declared.len() < 0xFFFF {
                declared.len()
            } else {
                0xFFFE
            };
            token::token_bytes(columns, TokenView::ColMetadata(declared)) == seq![
                0x81u8,
                (n % 256) as u8,
                (n / 256) as u8,
            ] + token::columns_bytes(declared)
        }),
        token::columns_bytes(seq![column] + declared) == seq![0u8, 0u8, 0u8, 0u8, 1u8, 0u8]
            + column::type_info_bytes(column.kind) + wire::b_varchar_bytes(column.name)
            + token::columns_bytes(declared),
        token::columns_bytes(Seq::empty()) == Seq::<u8>::empty(),
{
    assert(token::token_bytes(columns, TokenView::ColMetadata(Seq::empty())) =~= seq![
        0x81u8,
        0xFFu8,
        0xFFu8,
    ]);
    let all = seq![column] + declared;
    assert(all.skip(1) =~= declared);
    assert(wire::le32(0) + wire::le16(1) =~= seq![0u8, 0u8, 0u8, 0u8, 1u8, 0u8]);
    if declared.len() > 0 {
        let n = if declared.len() < 0xFFFF {
            declared.len()
        } else {
            0xFFFE
        };
        assert(token::token_bytes(columns, TokenView::ColMetadata(declared)) =~= seq![
            0x81u8,
            (n % 256) as u8,
            (n / 256) as u8,
        ] + token::columns_bytes(declared));
    }
}

/// A row is written as its values in order, each as a cell of its column, as
/// far as there are both.
pub proof fn lemma_rows_are_written(
    columns: Seq<ColumnView>,
    values: Seq<Value>,
    column: ColumnView,
    value: Value,
)
    ensures
        token::token_bytes(columns, TokenView::Row(values)) == seq![0xD1u8] + token::cells_bytes(
            columns,
            values,
        ),
        token::cells_bytes(seq![column] + columns, seq![value] + values) == column::cell_bytes(
            column.kind,
            value,
        ) + token::cells_bytes(columns, values),
        token::cells_bytes(Seq::empty(), values) == Seq::<u8>::empty(),
        token::cells_bytes(columns, Seq::empty()) == Seq::<u8>::empty(),
{
    assert((seq![column] + columns).skip(1) =~= columns);
    assert((seq![value] + values).skip(1) =~= values);
}

/// A payload is written token by token, a row by the columns last declared
/// before it.
pub proof fn lemma_payloads_are_written(
    columns: Seq<ColumnView>,
    first: TokenView,
    others: Seq<TokenView>,
)
    ensures
        token::tokens_bytes(columns, Seq::empty()) == Seq::<u8>::empty(),
        token::tokens_bytes(columns, seq![first] + others) == token::token_bytes(columns, first)
            + token::tokens_bytes(
            match first {
                TokenView::ColMetadata(declared) => declared,
                _ => columns,
            },
            others,
        ),
{
    assert((seq![first] + others).skip(1) =~= others);
}

/// A declaration puts its columns in force, and no other token changes them.
pub proof fn lemma_a_declaration_puts_columns_in_force(
    columns: Seq<ColumnView>,
    declared: Seq<ColumnView>,
    other: TokenView,
)
    requires
        !(other is ColMetadata),
    ensures
        token::columns_after(columns, TokenView::ColMetadata(declared)) == declared,
        token::columns_after(columns, other) == columns,
{
}

/// A message that is made of a number, a severity and a text is from nowhere
/// named, in the state and on the line that are the first.
pub proof fn lemma_a_plain_message_is_from_nowhere(number: i32, class: u8, said: Seq<char>)
    ensures
        token::plain_message(number, class, said) == (MessageView {
            number,
            state: 1,
            class,
            text: said,
            server: Seq::empty(),
            procedure: Seq::empty(),
            line: 1,
        }),
{
}

} // verus!
