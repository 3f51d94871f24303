//! The token stream: what a server answers with, a sequence of tokens
//! each a byte then its body, in one `TABULAR_RESULT` message. Read here
//! as well as written, because the far-end [`crate::Session`] writes
//! exactly these. ENVCHANGE, INFO and ERROR, LOGINACK, COLMETADATA, ROW
//! and NBCROW, DONE in its three forms, RETURNSTATUS and ORDER; a token
//! outside those is refused by its byte, because not every token's
//! length is self-describing and reading past an unknown one is guessing.

use vstd::prelude::*;

use crate::column;
use crate::column::{Column, ColumnType, ColumnView};
use crate::error;
use crate::error::{protocol_error, Fault, TransportError};
use crate::number;
use crate::text;
use crate::wire;
use crate::wire::{Cursor, Reading};

verus! {

/// The environment changed: a database, a language, a packet size.
pub const ENVCHANGE: u8 = 0xE3;

/// The server failed the batch, or the login.
pub const ERROR: u8 = 0xAA;

/// The server has something to say that is not a failure.
pub const INFO: u8 = 0xAB;

/// The login was accepted.
pub const LOGINACK: u8 = 0xAD;

/// The columns of the rows to come.
pub const COLMETADATA: u8 = 0x81;

/// One row, every column present.
pub const ROW: u8 = 0xD1;

/// One row behind a null bitmap, the null columns absent.
pub const NBCROW: u8 = 0xD2;

/// A statement is done.
pub const DONE: u8 = 0xFD;

/// A procedure is done.
pub const DONEPROC: u8 = 0xFE;

/// A statement inside a procedure is done.
pub const DONEINPROC: u8 = 0xFF;

/// A procedure's return value.
pub const RETURNSTATUS: u8 = 0x79;

/// The columns an `ORDER BY` sorted on.
pub const ORDER: u8 = 0xA9;

/// More results follow this DONE.
pub const DONE_MORE: u16 = 0x0001;

/// The statement failed.
pub const DONE_ERROR: u16 = 0x0002;

/// The row count is meaningful.
pub const DONE_COUNT: u16 = 0x0010;

/// The count COLMETADATA carries when there are no columns.
pub const NO_COLUMNS: u16 = 0xFFFF;

/// ENVCHANGE: the database.
pub const ENV_DATABASE: u8 = 1;

/// ENVCHANGE: the language.
pub const ENV_LANGUAGE: u8 = 2;

/// ENVCHANGE: the packet size.
pub const ENV_PACKET_SIZE: u8 = 4;

/// What INFO and ERROR carry.
#[derive(Debug, PartialEq, Eq)]
pub struct Message {
    pub number: i32,
    pub state: u8,
    pub class: u8,
    pub text: String,
    pub server: String,
    pub procedure: String,
    pub line: u32,
}

/// What a [`Message`] says.
#[verifier::ext_equal]
pub struct MessageView {
    pub number: i32,
    pub state: u8,
    pub class: u8,
    pub text: Seq<char>,
    pub server: Seq<char>,
    pub procedure: Seq<char>,
    pub line: u32,
}

impl View for Message {
    type V = MessageView;

    open spec fn view(&self) -> MessageView {
        MessageView {
            number: self.number,
            state: self.state,
            class: self.class,
            text: self.text@,
            server: self.server@,
            procedure: self.procedure@,
            line: self.line,
        }
    }
}

impl DeepView for Message {
    type V = MessageView;

    open spec fn deep_view(&self) -> MessageView {
        self@
    }
}

impl Clone for Message {
    fn clone(&self) -> (copy: Self)
        ensures
            copy == *self,
    {
        Message {
            number: self.number,
            state: self.state,
            class: self.class,
            text: self.text.clone(),
            server: self.server.clone(),
            procedure: self.procedure.clone(),
            line: self.line,
        }
    }
}

/// `number` of severity `class` saying `text`, from nowhere named.
pub open spec fn plain_message(number: i32, class: u8, text: Seq<char>) -> MessageView {
    MessageView {
        number,
        state: 1,
        class,
        text,
        server: Seq::empty(),
        procedure: Seq::empty(),
        line: 1,
    }
}

impl Message {
    /// `number` of severity `class` saying `text`, from nowhere named.
    #[must_use]
    pub fn new(number: i32, class: u8, text: &str) -> (message: Self)
        ensures
            message@ == plain_message(number, class, text@),
    {
        Message {
            number,
            state: 1,
            class,
            text: text.to_owned(),
            server: String::new(),
            procedure: String::new(),
            line: 1,
        }
    }
}

/// What a server sends.
#[derive(Clone, Debug, PartialEq, Eq)]
pub enum Token {
    EnvChange { kind: u8, new: String, old: String },
    Info(Message),
    Error(Message),
    LoginAck { version: u32, program: String },
    ColMetadata(Vec<Column>),
    /// One row, each column as text or null.
    Row(Vec<Option<String>>),
    Done { status: u16, rows: u64 },
    DoneProc { status: u16, rows: u64 },
    DoneInProc { status: u16, rows: u64 },
    ReturnStatus(i32),
    Order(Vec<u16>),
}

/// What a [`Token`] says.
#[verifier::ext_equal]
pub enum TokenView {
    EnvChange { kind: u8, new: Seq<char>, old: Seq<char> },
    Info(MessageView),
    Error(MessageView),
    LoginAck { version: u32, program: Seq<char> },
    ColMetadata(Seq<ColumnView>),
    Row(Seq<Option<Seq<char>>>),
    Done { status: u16, rows: u64 },
    DoneProc { status: u16, rows: u64 },
    DoneInProc { status: u16, rows: u64 },
    ReturnStatus(i32),
    Order(Seq<u16>),
}

/// What columns say.
pub open spec fn columns_view(columns: Seq<Column>) -> Seq<ColumnView> {
    Seq::new(columns.len(), |i: int| columns[i]@)
}

/// What a row's values say.
pub open spec fn row_view(values: Seq<Option<String>>) -> Seq<Option<Seq<char>>> {
    Seq::new(values.len(), |i: int| values[i].deep_view())
}

impl View for Token {
    type V = TokenView;

    open spec fn view(&self) -> TokenView {
        match self {
            Token::EnvChange { kind, new, old } => TokenView::EnvChange {
                kind: *kind,
                new: new@,
                old: old@,
            },
            Token::Info(message) => TokenView::Info(message@),
            Token::Error(message) => TokenView::Error(message@),
            Token::LoginAck { version, program } => TokenView::LoginAck {
                version: *version,
                program: program@,
            },
            Token::ColMetadata(columns) => TokenView::ColMetadata(columns_view(columns@)),
            Token::Row(values) => TokenView::Row(row_view(values@)),
            Token::Done { status, rows } => TokenView::Done { status: *status, rows: *rows },
            Token::DoneProc { status, rows } => TokenView::DoneProc { status: *status, rows: *rows },
            Token::DoneInProc { status, rows } => TokenView::DoneInProc {
                status: *status,
                rows: *rows,
            },
            Token::ReturnStatus(status) => TokenView::ReturnStatus(*status),
            Token::Order(numbers) => TokenView::Order(numbers@),
        }
    }
}

impl DeepView for Token {
    type V = TokenView;

    open spec fn deep_view(&self) -> TokenView {
        self@
    }
}

/// What tokens say.
pub open spec fn tokens_view(tokens: Seq<Token>) -> Seq<TokenView> {
    Seq::new(tokens.len(), |i: int| tokens[i]@)
}

// Writing.

/// A token whose body carries its length.
pub open spec fn with_length(token: u8, body: Seq<u8>) -> Seq<u8> {
    seq![token] + wire::le16(wire::saturated(body.len())) + body
}

/// The cause of a message: the number, the state, the severity and the text.
pub open spec fn cause_bytes(message: MessageView) -> Seq<u8> {
    wire::le_i32(message.number) + seq![message.state, message.class] + wire::us_varchar_bytes(
        message.text,
    )
}

/// The origin of a message: the server, the procedure and the line.
pub open spec fn origin_bytes(message: MessageView) -> Seq<u8> {
    wire::b_varchar_bytes(message.server) + wire::b_varchar_bytes(message.procedure) + wire::le32(
        message.line,
    )
}

/// The body of an INFO or an ERROR: its cause, then its origin.
pub open spec fn message_body(message: MessageView) -> Seq<u8> {
    cause_bytes(message) + origin_bytes(message)
}

/// The body of an ENVCHANGE.
pub open spec fn env_change_body(kind: u8, new: Seq<char>, old: Seq<char>) -> Seq<u8> {
    seq![kind] + wire::b_varchar_bytes(new) + wire::b_varchar_bytes(old)
}

/// The body of a LOGINACK: the SQL_TSQL interface, the version spoken, the
/// program and the program's version.
pub open spec fn login_ack_body(version: u32, program: Seq<char>) -> Seq<u8> {
    seq![1u8] + wire::be32(version) + wire::b_varchar_bytes(program) + seq![16u8, 0, 0, 0]
}

/// One column of a COLMETADATA: no user type, nullable, its type and name.
pub open spec fn column_bytes(column: ColumnView) -> Seq<u8> {
    wire::le32(0) + wire::le16(0x0001) + column::type_info_bytes(column.kind)
        + wire::b_varchar_bytes(column.name)
}

/// `columns` one behind the other.
pub open spec fn columns_bytes(columns: Seq<ColumnView>) -> Seq<u8>
    decreases columns.len(),
{
    if columns.len() == 0 {
        Seq::empty()
    } else {
        column_bytes(columns[0]) + columns_bytes(columns.skip(1))
    }
}

/// The count a COLMETADATA of so many columns carries: [`NO_COLUMNS`] for
/// none alone, and no more than one short of that.
pub open spec fn column_count(columns: nat) -> u16 {
    if columns == 0 {
        NO_COLUMNS
    } else if columns < NO_COLUMNS {
        columns as u16
    } else {
        (NO_COLUMNS - 1) as u16
    }
}

/// `values` as the cells of `columns`, as far as both go.
pub open spec fn cells_bytes(columns: Seq<ColumnView>, values: Seq<Option<Seq<char>>>) -> Seq<u8>
    decreases columns.len(),
{
    if columns.len() == 0 || values.len() == 0 {
        Seq::empty()
    } else {
        column::cell_bytes(columns[0].kind, values[0]) + cells_bytes(
            columns.skip(1),
            values.skip(1),
        )
    }
}

/// A DONE of one of its three forms.
pub open spec fn done_bytes(token: u8, status: u16, rows: u64) -> Seq<u8> {
    seq![token] + wire::le16(status) + wire::le16(0) + wire::le64(rows)
}

/// One token on the wire, a row by the `columns` before it.
pub open spec fn token_bytes(columns: Seq<ColumnView>, token: TokenView) -> Seq<u8> {
    match token {
        TokenView::EnvChange { kind, new, old } => with_length(
            ENVCHANGE,
            env_change_body(kind, new, old),
        ),
        TokenView::Info(message) => with_length(INFO, message_body(message)),
        TokenView::Error(message) => with_length(ERROR, message_body(message)),
        TokenView::LoginAck { version, program } => with_length(
            LOGINACK,
            login_ack_body(version, program),
        ),
        TokenView::ColMetadata(declared) => seq![COLMETADATA] + wire::le16(
            column_count(declared.len()),
        ) + columns_bytes(declared),
        TokenView::Row(values) => seq![ROW] + cells_bytes(columns, values),
        TokenView::Done { status, rows } => done_bytes(DONE, status, rows),
        TokenView::DoneProc { status, rows } => done_bytes(DONEPROC, status, rows),
        TokenView::DoneInProc { status, rows } => done_bytes(DONEINPROC, status, rows),
        TokenView::ReturnStatus(status) => seq![RETURNSTATUS] + wire::le_i32(status),
        TokenView::Order(numbers) => with_length(ORDER, text::unit_bytes(numbers)),
    }
}

/// A COLMETADATA counts no columns if and only if it declares none, and then
/// says nothing more.
pub proof fn lemma_no_columns_alone_say_none(columns: Seq<ColumnView>, declared: Seq<ColumnView>)
    ensures
        ({
            let bytes = token_bytes(columns, TokenView::ColMetadata(declared));
            &&& bytes[0] == COLMETADATA
            &&& wire::le16_value(bytes.skip(1)) == NO_COLUMNS <==> declared.len() == 0
            &&& declared.len() == 0 ==> bytes == seq![COLMETADATA, 0xFFu8, 0xFFu8]
        }),
{
    let bytes = token_bytes(columns, TokenView::ColMetadata(declared));
    let count = column_count(declared.len());
    wire::lemma_u16_reads_back(count, Seq::empty());
    assert(bytes.skip(1)[0] == wire::le16(count)[0]);
    assert(bytes.skip(1)[1] == wire::le16(count)[1]);
    if declared.len() == 0 {
        assert(bytes =~= seq![COLMETADATA, 0xFFu8, 0xFFu8]);
    }
}

/// The columns in force behind `token`.
pub open spec fn columns_after(columns: Seq<ColumnView>, token: TokenView) -> Seq<ColumnView> {
    match token {
        TokenView::ColMetadata(declared) => declared,
        _ => columns,
    }
}

/// `tokens` as one payload, each row by the metadata before it, `columns`
/// being in force ahead of the first.
pub open spec fn tokens_bytes(columns: Seq<ColumnView>, tokens: Seq<TokenView>) -> Seq<u8>
    decreases tokens.len(),
{
    if tokens.len() == 0 {
        Seq::empty()
    } else {
        token_bytes(columns, tokens[0]) + tokens_bytes(
            columns_after(columns, tokens[0]),
            tokens.skip(1),
        )
    }
}

/// Appends a token whose body carries its length.
fn push_with_length(out: &mut Vec<u8>, token: u8, body: &[u8])
    ensures
        final(out)@ == old(out)@ + with_length(token, body@),
{
    out.push(token);
    wire::push_u16(out, wire::saturated_sum(0, body.len()));
    wire::push_bytes(out, body);
    assert(out@ =~= old(out)@ + with_length(token, body@));
}

/// Appends a DONE of one of its three forms.
fn push_done(out: &mut Vec<u8>, token: u8, status: u16, rows: u64)
    ensures
        final(out)@ == old(out)@ + done_bytes(token, status, rows),
{
    out.push(token);
    wire::push_u16(out, status);
    wire::push_u16(out, 0);  // the current command
    wire::push_u64(out, rows);
    assert(out@ =~= old(out)@ + done_bytes(token, status, rows));
}

/// Appends an INFO or an ERROR.
fn push_message(out: &mut Vec<u8>, token: u8, message: &Message)
    ensures
        final(out)@ == old(out)@ + with_length(token, message_body(message@)),
{
    let mut body: Vec<u8> = Vec::new();
    wire::push_i32(&mut body, message.number);
    body.push(message.state);
    body.push(message.class);
    wire::push_us_varchar(&mut body, message.text.as_str());
    wire::push_b_varchar(&mut body, message.server.as_str());
    wire::push_b_varchar(&mut body, message.procedure.as_str());
    wire::push_u32(&mut body, message.line);
    assert(body@ =~= message_body(message@));
    push_with_length(out, token, body.as_slice());
}

/// Appends the columns of a COLMETADATA.
fn push_columns(out: &mut Vec<u8>, columns: &[Column])
    ensures
        final(out)@ == old(out)@ + columns_bytes(columns_view(columns@)),
{
    let mut i: usize = 0;
    let ghost all = columns_view(columns@);
    assert(all.skip(0) =~= all);
    while i < columns.len()
        invariant
            all == columns_view(columns@),
            i <= columns.len(),
            out@ + columns_bytes(all.skip(i as int)) == old(out)@ + columns_bytes(all),
        decreases columns.len() - i,
    {
        let ghost before = out@;
        wire::push_u32(out, 0);  // user type
        wire::push_u16(out, 0x0001);  // nullable
        column::write_type_info(out, columns[i].kind);
        wire::push_b_varchar(out, columns[i].name.as_str());
        proof {
            let rest = all.skip(i as int);
            assert(rest[0] == columns@[i as int]@);
            assert(rest.skip(1) =~= all.skip(i + 1));
            assert(out@ =~= before + column_bytes(rest[0]));
            assert(out@ + columns_bytes(rest.skip(1)) =~= before + columns_bytes(rest));
        }
        i = i + 1;
    }
    assert(all.skip(i as int) =~= Seq::empty());
    assert(out@ + Seq::empty() =~= out@);
}

/// Appends `values` as the cells of `columns`, as far as both go.
fn push_cells(out: &mut Vec<u8>, columns: &[Column], values: &[Option<String>])
    ensures
        final(out)@ == old(out)@ + cells_bytes(columns_view(columns@), row_view(values@)),
{
    let mut i: usize = 0;
    let ghost all = columns_view(columns@);
    let ghost row = row_view(values@);
    assert(all.skip(0) =~= all);
    assert(row.skip(0) =~= row);
    while i < columns.len() && i < values.len()
        invariant
            all == columns_view(columns@),
            row == row_view(values@),
            i <= columns.len(),
            i <= values.len(),
            out@ + cells_bytes(all.skip(i as int), row.skip(i as int)) == old(out)@ + cells_bytes(
                all,
                row,
            ),
        decreases columns.len() - i,
    {
        let ghost before = out@;
        let value: Option<&str> = match &values[i] {
            Some(text) => Some(text.as_str()),
            None => None,
        };
        column::write_value(out, columns[i].kind, value);
        proof {
            let cs = all.skip(i as int);
            let vs = row.skip(i as int);
            assert(cs[0] == columns@[i as int]@);
            assert(vs[0] == values@[i as int].deep_view());
            assert(cs.skip(1) =~= all.skip(i + 1));
            assert(vs.skip(1) =~= row.skip(i + 1));
            assert(out@ + cells_bytes(cs.skip(1), vs.skip(1)) =~= before + cells_bytes(cs, vs));
        }
        i = i + 1;
    }
    assert(cells_bytes(all.skip(i as int), row.skip(i as int)) =~= Seq::empty());
    assert(out@ + Seq::empty() =~= out@);
}

/// Appends one token, a row by the `columns` before it.
fn push_token(out: &mut Vec<u8>, columns: &[Column], token: &Token)
    ensures
        final(out)@ == old(out)@ + token_bytes(columns_view(columns@), token@),
{
    match token {
        Token::EnvChange { kind, new, old: was } => {
            let mut body: Vec<u8> = Vec::new();
            body.push(*kind);
            wire::push_b_varchar(&mut body, new.as_str());
            wire::push_b_varchar(&mut body, was.as_str());
            assert(body@ =~= env_change_body(*kind, new@, was@));
            push_with_length(out, ENVCHANGE, body.as_slice());
        },
        Token::Info(message) => push_message(out, INFO, message),
        Token::Error(message) => push_message(out, ERROR, message),
        Token::LoginAck { version, program } => {
            let mut body: Vec<u8> = Vec::new();
            body.push(1);  // the SQL_TSQL interface
            wire::push_u32_be(&mut body, *version);
            wire::push_b_varchar(&mut body, program.as_str());
            wire::push_bytes(&mut body, [16u8, 0, 0, 0].as_slice());  // the program's version
            assert(body@ =~= login_ack_body(*version, program@));
            push_with_length(out, LOGINACK, body.as_slice());
        },
        Token::ColMetadata(declared) => {
            let count: u16 = if declared.len() == 0 {
                NO_COLUMNS
            } else if declared.len() < NO_COLUMNS as usize {
                declared.len() as u16
            } else {
                NO_COLUMNS - 1
            };
            out.push(COLMETADATA);
            wire::push_u16(out, count);
            push_columns(out, declared.as_slice());
            assert(out@ =~= old(out)@ + token_bytes(columns_view(columns@), token@));
        },
        Token::Row(values) => {
            out.push(ROW);
            push_cells(out, columns, values.as_slice());
            assert(out@ =~= old(out)@ + token_bytes(columns_view(columns@), token@));
        },
        Token::Done { status, rows } => push_done(out, DONE, *status, *rows),
        Token::DoneProc { status, rows } => push_done(out, DONEPROC, *status, *rows),
        Token::DoneInProc { status, rows } => push_done(out, DONEINPROC, *status, *rows),
        Token::ReturnStatus(status) => {
            out.push(RETURNSTATUS);
            wire::push_i32(out, *status);
            assert(out@ =~= old(out)@ + token_bytes(columns_view(columns@), token@));
        },
        Token::Order(numbers) => {
            let mut body: Vec<u8> = Vec::new();
            wire::push_units(&mut body, numbers.as_slice());
            assert(body@ =~= text::unit_bytes(numbers@));
            push_with_length(out, ORDER, body.as_slice());
        },
    }
}

/// `tokens` as one payload. A row is written by the metadata before it.
#[must_use]
pub fn encode_tokens(tokens: &[Token]) -> (out: Vec<u8>)
    ensures
        out@ == tokens_bytes(Seq::empty(), tokens_view(tokens@)),
{
    let mut out: Vec<u8> = Vec::new();
    let none: Vec<Column> = Vec::new();
    let mut columns: &[Column] = none.as_slice();
    let mut i: usize = 0;
    let ghost all = tokens_view(tokens@);
    assert(all.skip(0) =~= all);
    assert(columns_view(columns@) =~= Seq::empty());
    assert(out@ + tokens_bytes(Seq::empty(), all) =~= tokens_bytes(Seq::empty(), all));
    while i < tokens.len()
        invariant
            all == tokens_view(tokens@),
            i <= tokens.len(),
            out@ + tokens_bytes(columns_view(columns@), all.skip(i as int)) == tokens_bytes(
                Seq::empty(),
                all,
            ),
        decreases tokens.len() - i,
    {
        let ghost before = out@;
        let ghost then_columns = columns_view(columns@);
        push_token(&mut out, columns, &tokens[i]);
        match &tokens[i] {
            Token::ColMetadata(declared) => {
                columns = declared.as_slice();
            },
            _ => {},
        }
        proof {
            let rest = all.skip(i as int);
            assert(rest[0] == tokens@[i as int]@);
            assert(rest.skip(1) =~= all.skip(i + 1));
            let after = tokens_bytes(columns_view(columns@), rest.skip(1));
            assert(out@ + after =~= before + (token_bytes(then_columns, rest[0]) + after));
        }
        i = i + 1;
    }
    assert(all.skip(i as int) =~= Seq::empty());
    assert(out@ + Seq::empty() =~= out@);
    out
}

// Reading.

/// The next origin of a message, of `s`: the server, the procedure and the
/// line.
#[verifier::opaque]
pub open spec fn next_origin(s: Seq<u8>) -> Reading<(Seq<char>, Seq<char>, u32)> {
    wire::chain(
        wire::next_b_varchar(s),
        |server: Seq<char>, s: Seq<u8>|
            wire::chain(
                wire::next_b_varchar(s),
                |procedure: Seq<char>, s: Seq<u8>|
                    wire::chain(
                        wire::next_u32(s),
                        |line: u32, s: Seq<u8>| (Ok((server, procedure, line)), s),
                    ),
            ),
    )
}

/// The next cause of a message, of `s`: the number, the state, the severity
/// and the text.
#[verifier::opaque]
pub open spec fn next_cause(s: Seq<u8>) -> Reading<(i32, u8, u8, Seq<char>)> {
    wire::chain(
        wire::next_i32(s),
        |number: i32, s: Seq<u8>|
            wire::chain(
                wire::next_byte(s),
                |state: u8, s: Seq<u8>|
                    wire::chain(
                        wire::next_byte(s),
                        |class: u8, s: Seq<u8>|
                            wire::chain(
                                wire::next_us_varchar(s),
                                |text: Seq<char>, s: Seq<u8>| (Ok((number, state, class, text)), s),
                            ),
                    ),
            ),
    )
}

/// The message the body of an INFO or an ERROR carries: its cause, then its
/// origin.
pub open spec fn message_in(body: Seq<u8>) -> Result<MessageView, Fault> {
    match next_cause(body) {
        (Err(fault), _) => Err(fault),
        (Ok(cause), rest) => match next_origin(rest) {
            (Err(fault), _) => Err(fault),
            (Ok(origin), _) => Ok(
                MessageView {
                    number: cause.0,
                    state: cause.1,
                    class: cause.2,
                    text: cause.3,
                    server: origin.0,
                    procedure: origin.1,
                    line: origin.2,
                },
            ),
        },
    }
}

/// The change the body of an ENVCHANGE carries. What changed is read where
/// it is text, which it is of the first six kinds.
pub open spec fn env_change_in(body: Seq<u8>) -> Result<TokenView, Fault> {
    let reading = wire::chain(
        wire::next_byte(body),
        |kind: u8, s: Seq<u8>|
            {
                if 1 <= kind <= 6 {
                    wire::chain(
                        wire::next_b_varchar(s),
                        |new: Seq<char>, s: Seq<u8>|
                            wire::chain(
                                wire::next_b_varchar(s),
                                |was: Seq<char>, s: Seq<u8>|
                                    (Ok(TokenView::EnvChange { kind, new, old: was }), s),
                            ),
                    )
                } else {
                    (
                        Ok(TokenView::EnvChange { kind, new: Seq::empty(), old: Seq::empty() }),
                        s,
                    )
                }
            },
    );
    reading.0
}

/// The acknowledgement the body of a LOGINACK carries.
pub open spec fn login_ack_in(body: Seq<u8>) -> Result<TokenView, Fault> {
    let reading = wire::chain(
        wire::next_skip(body, 1),
        |u: (), s: Seq<u8>|
            wire::chain(
                wire::next_u32_be(s),
                |version: u32, s: Seq<u8>|
                    wire::chain(
                        wire::next_b_varchar(s),
                        |program: Seq<char>, s: Seq<u8>|
                            (Ok(TokenView::LoginAck { version, program }), s),
                    ),
            ),
    );
    reading.0
}

/// The columns the body of an ORDER carries, a u16 each.
pub open spec fn order_in(body: Seq<u8>) -> Result<TokenView, Fault> {
    if body.len() % 2 == 0 {
        Ok(TokenView::Order(text::byte_units(body)))
    } else {
        Err(wire::past_the_message())
    }
}

/// The next body that carries its length, of `s`.
pub open spec fn next_body(s: Seq<u8>) -> Reading<Seq<u8>> {
    wire::chain(
        wire::next_u16(s),
        |length: u16, rest: Seq<u8>| wire::next_take(rest, length as nat),
    )
}

/// The next column of a COLMETADATA, of `s`: past the user type and the
/// flags, then the type and the name.
#[verifier::opaque]
pub open spec fn next_column(s: Seq<u8>) -> Reading<ColumnView> {
    wire::chain(
        wire::next_skip(s, 6),
        |u: (), s: Seq<u8>|
            wire::chain(
                column::next_type_info(s),
                |kind: ColumnType, s: Seq<u8>|
                    wire::chain(
                        wire::next_b_varchar(s),
                        |name: Seq<char>, s: Seq<u8>| (Ok(ColumnView { name, kind }), s),
                    ),
            ),
    )
}

/// The next `count` columns of a COLMETADATA, of `s`.
pub open spec fn next_columns(s: Seq<u8>, count: nat) -> Reading<Seq<ColumnView>>
    decreases count,
{
    if count == 0 {
        (Ok(Seq::empty()), s)
    } else {
        match next_column(s) {
            (Ok(column), rest) => match next_columns(rest, (count - 1) as nat) {
                (Ok(others), rest) => (Ok(seq![column] + others), rest),
                (Err(fault), rest) => (Err(fault), rest),
            },
            (Err(fault), rest) => (Err(fault), rest),
        }
    }
}

/// True of a column that a null bitmap, where there is one, marks absent.
pub open spec fn is_absent(bitmap: Option<Seq<u8>>, index: int) -> bool {
    match bitmap {
        Some(bits) => bits[index / 8] & (1u8 << ((index % 8) as u8)) != 0,
        None => false,
    }
}

/// The next cells of `s` by `columns` from the one at `index` on, those that
/// the bitmap marks absent being null.
pub open spec fn next_cells(
    s: Seq<u8>,
    columns: Seq<ColumnView>,
    bitmap: Option<Seq<u8>>,
    index: nat,
) -> Reading<Seq<Option<Seq<char>>>>
    decreases columns.len() - index,
{
    if index >= columns.len() {
        (Ok(Seq::empty()), s)
    } else {
        let reading = if is_absent(bitmap, index as int) {
            (Ok(None), s)
        } else {
            column::next_cell(s, columns[index as int].kind)
        };
        match reading {
            (Ok(value), rest) => match next_cells(rest, columns, bitmap, index + 1) {
                (Ok(others), rest) => (Ok(seq![value] + others), rest),
                (Err(fault), rest) => (Err(fault), rest),
            },
            (Err(fault), rest) => (Err(fault), rest),
        }
    }
}

/// True of the tokens whose body carries its length.
pub open spec fn is_framed(kind: u8) -> bool {
    kind == ENVCHANGE || kind == INFO || kind == ERROR || kind == LOGINACK || kind == ORDER
}

/// The token of `kind` that a body with a length carries.
pub open spec fn framed_in(kind: u8, body: Seq<u8>) -> Result<TokenView, Fault> {
    if kind == ENVCHANGE {
        env_change_in(body)
    } else if kind == LOGINACK {
        login_ack_in(body)
    } else if kind == ORDER {
        order_in(body)
    } else {
        match message_in(body) {
            Ok(message) => if kind == INFO {
                Ok(TokenView::Info(message))
            } else {
                Ok(TokenView::Error(message))
            },
            Err(fault) => Err(fault),
        }
    }
}

/// The rest of a COLMETADATA, of `s`.
pub open spec fn next_metadata(s: Seq<u8>) -> Reading<TokenView> {
    wire::chain(
        wire::next_u16(s),
        |count: u16, rest: Seq<u8>|
            wire::chain(
                next_columns(
                    rest,
                    if count == NO_COLUMNS {
                        0
                    } else {
                        count as nat
                    },
                ),
                |declared: Seq<ColumnView>, rest: Seq<u8>|
                    (Ok(TokenView::ColMetadata(declared)), rest),
            ),
    )
}

/// The rest of a ROW, of `s`.
pub open spec fn next_row(columns: Seq<ColumnView>, s: Seq<u8>) -> Reading<TokenView> {
    wire::chain(
        next_cells(s, columns, None, 0),
        |values: Seq<Option<Seq<char>>>, rest: Seq<u8>| (Ok(TokenView::Row(values)), rest),
    )
}

/// The rest of an NBCROW, of `s`: a bit for each column, then the cells.
pub open spec fn next_nbc_row(columns: Seq<ColumnView>, s: Seq<u8>) -> Reading<TokenView> {
    wire::chain(
        wire::next_take(s, (columns.len() + 7) / 8),
        |bits: Seq<u8>, rest: Seq<u8>|
            wire::chain(
                next_cells(rest, columns, Some(bits), 0),
                |values: Seq<Option<Seq<char>>>, rest: Seq<u8>|
                    (Ok(TokenView::Row(values)), rest),
            ),
    )
}

/// The rest of a DONE of the form `kind`, of `s`.
pub open spec fn next_done(kind: u8, s: Seq<u8>) -> Reading<TokenView> {
    wire::chain(
        wire::next_u16(s),
        |status: u16, s: Seq<u8>|
            wire::chain(
                wire::next_skip(s, 2),
                |u: (), s: Seq<u8>|
                    wire::chain(
                        wire::next_u64(s),
                        |rows: u64, s: Seq<u8>|
                            {
                                if kind == DONE {
                                    (Ok(TokenView::Done { status, rows }), s)
                                } else if kind == DONEPROC {
                                    (Ok(TokenView::DoneProc { status, rows }), s)
                                } else {
                                    (Ok(TokenView::DoneInProc { status, rows }), s)
                                }
                            },
                    ),
            ),
    )
}

/// The rest of a RETURNSTATUS, of `s`.
pub open spec fn next_return_status(s: Seq<u8>) -> Reading<TokenView> {
    wire::chain(
        wire::next_i32(s),
        |status: i32, rest: Seq<u8>| (Ok(TokenView::ReturnStatus(status)), rest),
    )
}

/// The rest of a token of `kind`, of `s`, a row by `columns`.
#[verifier::opaque]
pub open spec fn next_of_kind(columns: Seq<ColumnView>, kind: u8, s: Seq<u8>) -> Reading<
    TokenView,
> {
    if is_framed(kind) {
        wire::chain(next_body(s), |body: Seq<u8>, rest: Seq<u8>| (framed_in(kind, body), rest))
    } else if kind == COLMETADATA {
        next_metadata(s)
    } else if kind == ROW {
        next_row(columns, s)
    } else if kind == NBCROW {
        next_nbc_row(columns, s)
    } else if kind == DONE || kind == DONEPROC || kind == DONEINPROC {
        next_done(kind, s)
    } else if kind == RETURNSTATUS {
        next_return_status(s)
    } else {
        (
            Err(
                error::fault(
                    "token "@ + number::hex_name(kind) + " is not one this crate reads"@,
                ),
            ),
            s,
        )
    }
}

/// The next token of `s`, a row by `columns`, or nothing at the end.
pub open spec fn next_token(columns: Seq<ColumnView>, s: Seq<u8>) -> Reading<Option<TokenView>> {
    if s.len() == 0 {
        (Ok(None), s)
    } else {
        wire::chain(
            next_of_kind(columns, s[0], s.skip(1)),
            |token: TokenView, rest: Seq<u8>| (Ok(Some(token)), rest),
        )
    }
}

/// The next origin of a message; an error where it breaks off.
fn read_origin(cursor: &mut Cursor<'_>) -> (origin: Result<(String, String, u32), TransportError>)
    ensures
        next_origin(old(cursor)@) == (error::outcome(origin), final(cursor)@),
{
    reveal(next_origin);
    let server: String = cursor.b_varchar()?;
    let procedure: String = cursor.b_varchar()?;
    let line: u32 = cursor.u32()?;
    Ok((server, procedure, line))
}

/// The next cause of a message; an error where it breaks off.
fn read_cause(cursor: &mut Cursor<'_>) -> (cause: Result<(i32, u8, u8, String), TransportError>)
    ensures
        next_cause(old(cursor)@) == (error::outcome(cause), final(cursor)@),
{
    reveal(next_cause);
    let number: i32 = cursor.i32()?;
    let state: u8 = cursor.byte()?;
    let class: u8 = cursor.byte()?;
    let text: String = cursor.us_varchar()?;
    Ok((number, state, class, text))
}

/// The message the body of an INFO or an ERROR carries; an error where it
/// breaks off.
fn read_message(body: &[u8]) -> (message: Result<Message, TransportError>)
    ensures
        error::outcome(message) == message_in(body@),
{
    let mut cursor: Cursor<'_> = Cursor::new(body);
    let (number, state, class, text): (i32, u8, u8, String) = read_cause(&mut cursor)?;
    let (server, procedure, line): (String, String, u32) = read_origin(&mut cursor)?;
    Ok(Message { number, state, class, text, server, procedure, line })
}

/// The change the body of an ENVCHANGE carries; an error where it breaks off.
fn read_env_change(body: &[u8]) -> (token: Result<Token, TransportError>)
    ensures
        error::outcome(token) == env_change_in(body@),
{
    let mut cursor: Cursor<'_> = Cursor::new(body);
    let kind: u8 = cursor.byte()?;
    if 1 <= kind && kind <= 6 {
        let new: String = cursor.b_varchar()?;
        let was: String = cursor.b_varchar()?;
        Ok(Token::EnvChange { kind, new, old: was })
    } else {
        Ok(Token::EnvChange { kind, new: String::new(), old: String::new() })
    }
}

/// The acknowledgement the body of a LOGINACK carries; an error where it
/// breaks off.
fn read_login_ack(body: &[u8]) -> (token: Result<Token, TransportError>)
    ensures
        error::outcome(token) == login_ack_in(body@),
{
    let mut cursor: Cursor<'_> = Cursor::new(body);
    cursor.skip(1)?;
    let version: u32 = cursor.u32_be()?;
    let program: String = cursor.b_varchar()?;
    Ok(Token::LoginAck { version, program })
}

/// The columns the body of an ORDER carries; an error where it breaks off.
fn read_order(body: &[u8]) -> (token: Result<Token, TransportError>)
    ensures
        error::outcome(token) == order_in(body@),
{
    let mut cursor: Cursor<'_> = Cursor::new(body);
    let mut numbers: Vec<u16> = Vec::new();
    assert(body@.skip(0) =~= body@);
    while !cursor.is_empty()
        invariant
            2 * numbers@.len() <= body@.len(),
            cursor@ == body@.skip(2 * numbers@.len() as int),
            numbers@ == text::byte_units(body@).take(numbers@.len() as int),
        decreases cursor@.len(),
    {
        let ghost n = numbers@.len() as int;
        let number: u16 = cursor.u16()?;
        numbers.push(number);
        proof {
            assert(numbers@ =~= text::byte_units(body@).take(n + 1));
            assert(body@.skip(2 * n).skip(2) =~= body@.skip(2 * (n + 1)));
        }
    }
    assert(numbers@ =~= text::byte_units(body@));
    Ok(Token::Order(numbers))
}

/// The next column of a COLMETADATA; an error for a type this crate does not
/// read, and where it breaks off.
fn read_column(cursor: &mut Cursor<'_>) -> (column: Result<Column, TransportError>)
    ensures
        next_column(old(cursor)@) == (error::outcome(column), final(cursor)@),
{
    reveal(next_column);
    cursor.skip(6)?;  // user type, flags
    let kind: ColumnType = column::read_type_info(cursor)?;
    let name: String = cursor.b_varchar()?;
    Ok(Column { name, kind })
}

/// The next `count` columns of a COLMETADATA.
fn read_columns(cursor: &mut Cursor<'_>, count: usize) -> (columns: Result<
    Vec<Column>,
    TransportError,
>)
    ensures
        next_columns(old(cursor)@, count as nat) == (match columns {
            Ok(columns) => Ok(columns_view(columns@)),
            Err(error) => Err(error@),
        }, final(cursor)@),
{
    let mut columns: Vec<Column> = Vec::new();
    let ghost whole = next_columns(cursor@, count as nat);
    assert(columns_view(columns@) =~= Seq::empty());
    assert(whole.0 matches Ok(all) ==> Seq::empty() + all =~= all);
    while columns.len() < count
        invariant
            columns.len() <= count,
            whole == next_columns(old(cursor)@, count as nat),
            match next_columns(cursor@, (count - columns.len()) as nat) {
                (Ok(others), rest) => whole == (
                    Ok::<Seq<ColumnView>, Fault>(columns_view(columns@) + others),
                    rest,
                ),
                (Err(fault), rest) => whole == (Err::<Seq<ColumnView>, Fault>(fault), rest),
            },
        decreases count - columns.len(),
    {
        let ghost before = columns@;
        let ghost s = cursor@;
        let column: Column = read_column(cursor)?;
        columns.push(column);
        proof {
            if let (Ok(others), _) = next_columns(cursor@, (count - columns.len()) as nat) {
                assert(columns_view(columns@) + others =~= columns_view(before) + (seq![column@]
                    + others));
            }
        }
    }
    assert(columns_view(columns@) + Seq::empty() =~= columns_view(columns@));
    Ok(columns)
}

/// The next cells by `columns`, those that the bitmap marks absent being
/// null; an error where one is not of its column's type or breaks off.
fn read_cells(cursor: &mut Cursor<'_>, columns: &[Column], bitmap: Option<&[u8]>) -> (values:
    Result<Vec<Option<String>>, TransportError>)
    requires
        bitmap matches Some(bits) ==> bits@.len() == (columns@.len() + 7) / 8,
    ensures
        next_cells(old(cursor)@, columns_view(columns@), column::bytes_view(bitmap), 0) == (
            match values {
                Ok(values) => Ok(row_view(values@)),
                Err(error) => Err(error@),
            },
            final(cursor)@,
        ),
{
    let mut values: Vec<Option<String>> = Vec::new();
    let ghost all = columns_view(columns@);
    let ghost bits = column::bytes_view(bitmap);
    let ghost whole = next_cells(cursor@, all, bits, 0);
    let mut index: usize = 0;
    assert(row_view(values@) =~= Seq::empty());
    assert(whole.0 matches Ok(row) ==> Seq::empty() + row =~= row);
    while index < columns.len()
        invariant
            bitmap matches Some(b) ==> b@.len() == (columns@.len() + 7) / 8,
            all == columns_view(columns@),
            bits == column::bytes_view(bitmap),
            index <= columns.len(),
            whole == next_cells(old(cursor)@, all, bits, 0),
            match next_cells(cursor@, all, bits, index as nat) {
                (Ok(others), rest) => whole == (
                    Ok::<Seq<Option<Seq<char>>>, Fault>(row_view(values@) + others),
                    rest,
                ),
                (Err(fault), rest) => whole == (
                    Err::<Seq<Option<Seq<char>>>, Fault>(fault),
                    rest,
                ),
            },
        decreases columns.len() - index,
    {
        let ghost before = values@;
        let absent: bool = match bitmap {
            Some(b) => b[index / 8] & (1u8 << ((index % 8) as u8)) != 0,
            None => false,
        };
        assert(absent == is_absent(bits, index as int));
        let value: Option<String> = if absent {
            None
        } else {
            column::read_value(cursor, columns[index].kind)?
        };
        values.push(value);
        proof {
            if let (Ok(others), _) = next_cells(cursor@, all, bits, (index + 1) as nat) {
                assert(row_view(values@) + others =~= row_view(before) + (seq![value.deep_view()]
                    + others));
            }
        }
        index = index + 1;
    }
    assert(row_view(values@) + Seq::empty() =~= row_view(values@));
    Ok(values)
}

/// The token of `kind` that a body with a length carries; an error where it
/// breaks off.
fn read_framed(kind: u8, body: &[u8]) -> (token: Result<Token, TransportError>)
    requires
        is_framed(kind),
    ensures
        error::outcome(token) == framed_in(kind, body@),
{
    if kind == ENVCHANGE {
        read_env_change(body)
    } else if kind == LOGINACK {
        read_login_ack(body)
    } else if kind == ORDER {
        read_order(body)
    } else {
        let message: Message = read_message(body)?;
        if kind == INFO {
            Ok(Token::Info(message))
        } else {
            Ok(Token::Error(message))
        }
    }
}

/// The columns that the rest of a COLMETADATA declares.
fn read_metadata(cursor: &mut Cursor<'_>) -> (columns: Result<Vec<Column>, TransportError>)
    ensures
        next_metadata(old(cursor)@) == (match columns {
            Ok(columns) => Ok(TokenView::ColMetadata(columns_view(columns@))),
            Err(error) => Err(error@),
        }, final(cursor)@),
{
    let count: u16 = cursor.u16()?;
    read_columns(
        cursor,
        if count == NO_COLUMNS {
            0
        } else {
            count as usize
        },
    )
}

/// The rest of a ROW, by `columns`.
fn read_row(cursor: &mut Cursor<'_>, columns: &[Column]) -> (token: Result<Token, TransportError>)
    ensures
        next_row(columns_view(columns@), old(cursor)@) == (error::outcome(token), final(cursor)@),
{
    let values: Vec<Option<String>> = read_cells(cursor, columns, None)?;
    Ok(Token::Row(values))
}

/// The rest of an NBCROW, by `columns`: a bit for each, then the cells.
fn read_nbc_row(cursor: &mut Cursor<'_>, columns: &[Column]) -> (token: Result<
    Token,
    TransportError,
>)
    ensures
        next_nbc_row(columns_view(columns@), old(cursor)@) == (
            error::outcome(token),
            final(cursor)@,
        ),
{
    let count: usize = columns.len();
    let bytes: usize = if count % 8 == 0 {
        count / 8
    } else {
        count / 8 + 1
    };
    let bitmap: &[u8] = cursor.take(bytes)?;
    let values: Vec<Option<String>> = read_cells(cursor, columns, Some(bitmap))?;
    Ok(Token::Row(values))
}

/// The rest of a DONE of the form `kind`; an error where it breaks off.
fn read_done(cursor: &mut Cursor<'_>, kind: u8) -> (token: Result<Token, TransportError>)
    ensures
        next_done(kind, old(cursor)@) == (error::outcome(token), final(cursor)@),
{
    let status: u16 = cursor.u16()?;
    cursor.skip(2)?;  // the current command
    let rows: u64 = cursor.u64()?;
    if kind == DONE {
        Ok(Token::Done { status, rows })
    } else if kind == DONEPROC {
        Ok(Token::DoneProc { status, rows })
    } else {
        Ok(Token::DoneInProc { status, rows })
    }
}

/// Where a stream of tokens has got to.
#[verifier::ext_equal]
pub struct StreamView {
    /// The columns the last COLMETADATA declared.
    pub columns: Seq<ColumnView>,
    /// What remains of the payload.
    pub rest: Seq<u8>,
}

/// Reads a payload's tokens in order, keeping the columns the last
/// COLMETADATA declared so a ROW can be read by them.
pub struct TokenStream<'a> {
    cursor: Cursor<'a>,
    columns: Vec<Column>,
}

impl View for TokenStream<'_> {
    type V = StreamView;

    closed spec fn view(&self) -> StreamView {
        StreamView { columns: columns_view(self.columns@), rest: self.cursor@ }
    }
}

impl<'a> TokenStream<'a> {
    /// A stream at the start of `body`.
    #[must_use]
    pub fn new(body: &'a [u8]) -> (stream: Self)
        ensures
            stream@ == (StreamView { columns: Seq::empty(), rest: body@ }),
    {
        let stream: Self = TokenStream { cursor: Cursor::new(body), columns: Vec::new() };
        assert(stream@.columns =~= Seq::empty());
        stream
    }

    /// The columns the last COLMETADATA declared.
    #[must_use]
    pub fn columns(&self) -> (columns: &[Column])
        ensures
            columns_view(columns@) == self@.columns,
    {
        self.columns.as_slice()
    }

    /// The next token, or `None` at the end of the payload; an error for a
    /// token this crate does not read, a column type it does not read, or a
    /// token that breaks off.
    pub fn next_token(&mut self) -> (token: Result<Option<Token>, TransportError>)
        ensures
            next_token(old(self)@.columns, old(self)@.rest) == (
                error::outcome(token),
                final(self)@.rest,
            ),
            final(self)@.columns == (match token {
                Ok(Some(token)) => columns_after(old(self)@.columns, token@),
                _ => old(self)@.columns,
            }),
    {
        reveal(next_of_kind);
        if self.cursor.is_empty() {
            return Ok(None);
        }
        let kind: u8 = self.cursor.byte()?;
        let token: Token = if kind == ENVCHANGE || kind == INFO || kind == ERROR || kind == LOGINACK
            || kind == ORDER {
            read_framed(kind, self.body()?)?
        } else if kind == COLMETADATA {
            let columns: Vec<Column> = read_metadata(&mut self.cursor)?;
            self.columns = copied(columns.as_slice());
            Token::ColMetadata(columns)
        } else if kind == ROW {
            read_row(&mut self.cursor, self.columns.as_slice())?
        } else if kind == NBCROW {
            read_nbc_row(&mut self.cursor, self.columns.as_slice())?
        } else if kind == DONE || kind == DONEPROC || kind == DONEINPROC {
            read_done(&mut self.cursor, kind)?
        } else if kind == RETURNSTATUS {
            Token::ReturnStatus(self.cursor.i32()?)
        } else {
            let mut message: String = "token ".to_owned();
            message.append(number::hex_name_text(kind).as_str());
            message.append(" is not one this crate reads");
            return Err(protocol_error(message.as_str()));
        };
        Ok(Some(token))
    }

    /// The body of a token that carries its length.
    fn body(&mut self) -> (body: Result<&'a [u8], TransportError>)
        ensures
            next_body(old(self)@.rest) == (match body {
                Ok(body) => Ok(body@),
                Err(error) => Err(error@),
            }, final(self)@.rest),
            final(self)@.columns == old(self)@.columns,
    {
        let length: u16 = self.cursor.u16()?;
        self.cursor.take(length as usize)
    }
}

/// A copy of `columns`.
fn copied(columns: &[Column]) -> (copy: Vec<Column>)
    ensures
        copy@ == columns@,
{
    let mut copy: Vec<Column> = Vec::new();
    let mut i: usize = 0;
    while i < columns.len()
        invariant
            i <= columns.len(),
            copy@ == columns@.take(i as int),
        decreases columns.len() - i,
    {
        copy.push(columns[i].clone());
        assert(copy@ =~= columns@.take(i + 1));
        i = i + 1;
    }
    assert(copy@ =~= columns@);
    copy
}

// What was written reads back.

/// What INFO or ERROR says once it has been on the wire: the server's and
/// the procedure's name cut at 255 characters.
pub open spec fn carried_message(message: MessageView) -> MessageView {
    MessageView {
        server: wire::cut_text(message.server, 0xFF),
        procedure: wire::cut_text(message.procedure, 0xFF),
        ..message
    }
}

/// What `columns` are once they have been on the wire: each name cut at 255
/// characters.
pub open spec fn carried_columns(columns: Seq<ColumnView>) -> Seq<ColumnView> {
    Seq::new(
        columns.len(),
        |i: int| ColumnView { name: wire::cut_text(columns[i].name, 0xFF), kind: columns[i].kind },
    )
}

/// What a row's `values` are once they have been in the cells of `columns`.
pub open spec fn carried_row(
    columns: Seq<ColumnView>,
    values: Seq<Option<Seq<char>>>,
) -> Seq<Option<Seq<char>>> {
    Seq::new(columns.len(), |i: int| column::carried(columns[i].kind, values[i]))
}

/// What `token` says once it has been on the wire, a row by `columns`: names
/// are cut at 255 characters, a change that is not text says nothing, and
/// each value is what its cell carries.
pub open spec fn carried(columns: Seq<ColumnView>, token: TokenView) -> TokenView {
    match token {
        TokenView::EnvChange { kind, new, old: was } => if 1 <= kind <= 6 {
            TokenView::EnvChange {
                kind,
                new: wire::cut_text(new, 0xFF),
                old: wire::cut_text(was, 0xFF),
            }
        } else {
            TokenView::EnvChange { kind, new: Seq::empty(), old: Seq::empty() }
        },
        TokenView::Info(message) => TokenView::Info(carried_message(message)),
        TokenView::Error(message) => TokenView::Error(carried_message(message)),
        TokenView::LoginAck { version, program } => TokenView::LoginAck {
            version,
            program: wire::cut_text(program, 0xFF),
        },
        TokenView::ColMetadata(declared) => TokenView::ColMetadata(carried_columns(declared)),
        TokenView::Row(values) => TokenView::Row(carried_row(columns, values)),
        _ => token,
    }
}

/// True of a token the wire carries, a row by `columns`: a body's length is
/// what a u16 can say, so is a count of columns short of the one that says
/// none, and a row has a value that its cell carries for every column.
pub open spec fn carries(columns: Seq<ColumnView>, token: TokenView) -> bool {
    match token {
        TokenView::Info(message) | TokenView::Error(message) => message_body(message).len()
            <= 0xFFFF,
        TokenView::ColMetadata(declared) => declared.len() < NO_COLUMNS,
        TokenView::Row(values) => {
            &&& values.len() >= columns.len()
            &&& forall|i: int|
                0 <= i < columns.len() ==> column::carries(columns[i].kind, #[trigger] values[i])
        },
        TokenView::Order(numbers) => 2 * numbers.len() <= 0xFFFF,
        _ => true,
    }
}

/// A body reads back by its length.
proof fn lemma_body_reads_back(body: Seq<u8>, rest: Seq<u8>)
    requires
        body.len() <= 0xFFFF,
    ensures
        next_body(wire::le16(wire::saturated(body.len())) + body + rest) == (
            Ok::<Seq<u8>, Fault>(body),
            rest,
        ),
{
    let length = wire::saturated(body.len());
    assert(wire::le16(length) + body + rest =~= wire::le16(length) + (body + rest));
    wire::lemma_u16_reads_back(length, body + rest);
    wire::lemma_take_reads_back(body, rest);
}

/// The origin of a message reads back.
proof fn lemma_origin_reads_back(message: MessageView, rest: Seq<u8>)
    ensures
        next_origin(origin_bytes(message) + rest) == (
            Ok::<(Seq<char>, Seq<char>, u32), Fault>(
                (
                    wire::cut_text(message.server, 0xFF),
                    wire::cut_text(message.procedure, 0xFF),
                    message.line,
                ),
            ),
            rest,
        ),
{
    reveal(next_origin);
    let s2 = wire::le32(message.line) + rest;
    let s1 = wire::b_varchar_bytes(message.procedure) + s2;
    assert(origin_bytes(message) + rest =~= wire::b_varchar_bytes(message.server) + s1);
    wire::lemma_varchar_reads_back(message.server, s1);
    wire::lemma_varchar_reads_back(message.procedure, s2);
    wire::lemma_u32_reads_back(message.line, rest);
}

/// The cause of a message reads back.
proof fn lemma_cause_reads_back(message: MessageView, rest: Seq<u8>)
    requires
        text::utf16(message.text).len() <= 0xFFFF,
    ensures
        next_cause(cause_bytes(message) + rest) == (
            Ok::<(i32, u8, u8, Seq<char>), Fault>(
                (message.number, message.state, message.class, message.text),
            ),
            rest,
        ),
{
    reveal(next_cause);
    let s3 = wire::us_varchar_bytes(message.text) + rest;
    let s2 = seq![message.class] + s3;
    let s1 = seq![message.state] + s2;
    assert(cause_bytes(message) + rest =~= wire::le_i32(message.number) + s1);
    wire::lemma_i32_reads_back(message.number, s1);
    wire::lemma_byte_reads_back(message.state, s2);
    wire::lemma_byte_reads_back(message.class, s3);
    wire::lemma_varchar_reads_back(message.text, rest);
    wire::lemma_short_text_is_not_cut(message.text, 0xFFFF);
}

/// The body of an INFO or an ERROR reads back.
pub proof fn lemma_message_reads_back(message: MessageView)
    requires
        message_body(message).len() <= 0xFFFF,
    ensures
        message_in(message_body(message)) == Ok::<MessageView, Fault>(carried_message(message)),
{
    assert(text::utf16(message.text).len() <= 0xFFFF) by {
        assert(wire::us_varchar_bytes(message.text).len() <= message_body(message).len());
    }
    lemma_cause_reads_back(message, origin_bytes(message));
    lemma_origin_reads_back(message, Seq::empty());
    assert(origin_bytes(message) + Seq::empty() =~= origin_bytes(message));
}

/// The body of an ENVCHANGE reads back.
proof fn lemma_env_change_reads_back(kind: u8, new: Seq<char>, was: Seq<char>)
    ensures
        env_change_body(kind, new, was).len() <= 0xFFFF,
        env_change_in(env_change_body(kind, new, was)) == Ok::<TokenView, Fault>(
            carried(Seq::empty(), TokenView::EnvChange { kind, new, old: was }),
        ),
{
    let s2 = wire::b_varchar_bytes(was) + Seq::empty();
    let s1 = wire::b_varchar_bytes(new) + s2;
    assert(env_change_body(kind, new, was) =~= seq![kind] + s1);
    wire::lemma_byte_reads_back(kind, s1);
    wire::lemma_varchar_reads_back(new, s2);
    wire::lemma_varchar_reads_back(was, Seq::empty());
}

/// The body of a LOGINACK reads back.
proof fn lemma_login_ack_reads_back(version: u32, program: Seq<char>)
    ensures
        login_ack_body(version, program).len() <= 0xFFFF,
        login_ack_in(login_ack_body(version, program)) == Ok::<TokenView, Fault>(
            carried(Seq::empty(), TokenView::LoginAck { version, program }),
        ),
{
    let s2 = wire::b_varchar_bytes(program) + seq![16u8, 0, 0, 0];
    let s1 = wire::be32(version) + s2;
    assert(login_ack_body(version, program) =~= seq![1u8] + s1);
    assert((seq![1u8] + s1).skip(1) =~= s1);
    wire::lemma_u32_reads_back(version, s2);
    wire::lemma_varchar_reads_back(program, seq![16u8, 0, 0, 0]);
}

/// One column of a COLMETADATA reads back.
proof fn lemma_column_reads_back(column: ColumnView, rest: Seq<u8>)
    ensures
        next_column(column_bytes(column) + rest) == (
            Ok::<ColumnView, Fault>(
                ColumnView { name: wire::cut_text(column.name, 0xFF), kind: column.kind },
            ),
            rest,
        ),
{
    reveal(next_column);
    let s2 = wire::b_varchar_bytes(column.name) + rest;
    let s1 = column::type_info_bytes(column.kind) + s2;
    let s = column_bytes(column) + rest;
    assert(s =~= wire::le32(0) + wire::le16(0x0001) + s1);
    assert(s.skip(6) =~= s1);
    column::lemma_type_info_reads_back(column.kind, s2);
    wire::lemma_varchar_reads_back(column.name, rest);
}

/// The columns of a COLMETADATA read back.
proof fn lemma_columns_read_back(columns: Seq<ColumnView>, rest: Seq<u8>)
    ensures
        next_columns(columns_bytes(columns) + rest, columns.len()) == (
            Ok::<Seq<ColumnView>, Fault>(carried_columns(columns)),
            rest,
        ),
    decreases columns.len(),
{
    if columns.len() == 0 {
        assert(columns_bytes(columns) + rest =~= rest);
        assert(carried_columns(columns) =~= Seq::empty());
    } else {
        let others = columns.skip(1);
        let behind = columns_bytes(others) + rest;
        assert(columns_bytes(columns) + rest =~= column_bytes(columns[0]) + behind);
        lemma_column_reads_back(columns[0], behind);
        lemma_columns_read_back(others, rest);
        assert(carried_columns(columns) =~= seq![carried_columns(columns)[0]] + carried_columns(
            others,
        ));
    }
}

/// The cells of a row read back, from the column at `index` on.
#[verifier::spinoff_prover]
proof fn lemma_cells_read_back(
    columns: Seq<ColumnView>,
    values: Seq<Option<Seq<char>>>,
    index: nat,
    rest: Seq<u8>,
)
    requires
        index <= columns.len(),
        carries(columns, TokenView::Row(values)),
    ensures
        next_cells(
            cells_bytes(columns.skip(index as int), values.skip(index as int)) + rest,
            carried_columns(columns),
            None,
            index,
        ) == (
            Ok::<Seq<Option<Seq<char>>>, Fault>(
                carried_row(columns, values).skip(index as int),
            ),
            rest,
        ),
    decreases columns.len() - index,
{
    let cs = columns.skip(index as int);
    let vs = values.skip(index as int);
    let row = carried_row(columns, values);
    if index == columns.len() {
        assert(cells_bytes(cs, vs) + rest =~= rest);
        assert(row.skip(index as int) =~= Seq::empty());
    } else {
        let kind = columns[index as int].kind;
        let value = values[index as int];
        let behind = cells_bytes(
            columns.skip(index as int + 1),
            values.skip(index as int + 1),
        ) + rest;
        assert(cells_bytes(cs, vs) + rest == column::cell_bytes(kind, value) + behind) by {
            assert(cs[0] == columns[index as int] && vs[0] == value);
            assert(cs.skip(1) =~= columns.skip(index as int + 1));
            assert(vs.skip(1) =~= values.skip(index as int + 1));
            lemma_first_cell_stands_first(cs, vs, rest);
        }
        column::lemma_cell_reads_back(kind, value, behind);
        lemma_cells_read_back(columns, values, index + 1, rest);
        lemma_cell_and_others(
            cells_bytes(cs, vs) + rest,
            carried_columns(columns),
            index,
            row[index as int],
            behind,
            row.skip(index as int + 1),
            rest,
        );
        assert(row.skip(index as int) =~= seq![row[index as int]] + row.skip(index as int + 1));
    }
}

/// The first cell of a row stands before the others.
proof fn lemma_first_cell_stands_first(
    columns: Seq<ColumnView>,
    values: Seq<Option<Seq<char>>>,
    rest: Seq<u8>,
)
    requires
        columns.len() > 0,
        values.len() > 0,
    ensures
        cells_bytes(columns, values) + rest == column::cell_bytes(columns[0].kind, values[0]) + (
        cells_bytes(columns.skip(1), values.skip(1)) + rest),
{
    lemma_parts_stand_in_turn(
        column::cell_bytes(columns[0].kind, values[0]),
        cells_bytes(columns.skip(1), values.skip(1)),
        rest,
    );
}

/// Three parts stand in turn, whichever two are put together first.
proof fn lemma_parts_stand_in_turn(a: Seq<u8>, b: Seq<u8>, c: Seq<u8>)
    ensures
        a + b + c == a + (b + c),
{
    assert(a + b + c =~= a + (b + c));
}

/// One cell read, and the others behind it, are the cells from it on.
proof fn lemma_cell_and_others(
    s: Seq<u8>,
    columns: Seq<ColumnView>,
    index: nat,
    value: Option<Seq<char>>,
    behind: Seq<u8>,
    others: Seq<Option<Seq<char>>>,
    rest: Seq<u8>,
)
    requires
        index < columns.len(),
        column::next_cell(s, columns[index as int].kind) == (
            Ok::<Option<Seq<char>>, Fault>(value),
            behind,
        ),
        next_cells(behind, columns, None, index + 1) == (
            Ok::<Seq<Option<Seq<char>>>, Fault>(others),
            rest,
        ),
    ensures
        next_cells(s, columns, None, index) == (
            Ok::<Seq<Option<Seq<char>>>, Fault>(seq![value] + others),
            rest,
        ),
{
}

/// A token whose body carries its length reads back.
proof fn lemma_framed_reads_back(
    columns: Seq<ColumnView>,
    kind: u8,
    body: Seq<u8>,
    token: TokenView,
    rest: Seq<u8>,
)
    requires
        is_framed(kind),
        body.len() <= 0xFFFF,
        framed_in(kind, body) == Ok::<TokenView, Fault>(token),
    ensures
        next_token(columns, with_length(kind, body) + rest) == (
            Ok::<Option<TokenView>, Fault>(Some(token)),
            rest,
        ),
{
    reveal(next_of_kind);
    let s = with_length(kind, body) + rest;
    assert(s.skip(1) =~= wire::le16(wire::saturated(body.len())) + body + rest);
    lemma_body_reads_back(body, rest);
}

/// The rest of a DONE of any form reads back.
#[verifier::spinoff_prover]
proof fn lemma_done_reads_back(kind: u8, status: u16, rows: u64, rest: Seq<u8>)
    ensures
        next_done(kind, wire::le16(status) + (wire::le16(0) + (wire::le64(rows) + rest))) == (
            Ok::<TokenView, Fault>(done_token(kind, status, rows)),
            rest,
        ),
{
    let s2 = wire::le64(rows) + rest;
    let s1 = wire::le16(0) + s2;
    wire::lemma_u16_reads_back(status, s1);
    assert(s1.skip(2) =~= s2);
    wire::lemma_u64_reads_back(rows, rest);
}

/// A COLMETADATA reads back.
proof fn lemma_metadata_reads_back(declared: Seq<ColumnView>, rest: Seq<u8>)
    requires
        declared.len() < NO_COLUMNS,
    ensures
        next_metadata(wire::le16(column_count(declared.len())) + columns_bytes(declared) + rest)
            == (Ok::<TokenView, Fault>(TokenView::ColMetadata(carried_columns(declared))), rest),
{
    let count = column_count(declared.len());
    let behind = columns_bytes(declared) + rest;
    assert(wire::le16(count) + columns_bytes(declared) + rest =~= wire::le16(count) + behind);
    wire::lemma_u16_reads_back(count, behind);
    lemma_columns_read_back(declared, rest);
}

/// An INFO or an ERROR reads back.
proof fn lemma_message_token_reads_back(
    columns: Seq<ColumnView>,
    kind: u8,
    message: MessageView,
    rest: Seq<u8>,
)
    requires
        kind == INFO || kind == ERROR,
        message_body(message).len() <= 0xFFFF,
    ensures
        next_token(columns, with_length(kind, message_body(message)) + rest) == (
            Ok::<Option<TokenView>, Fault>(
                Some(
                    if kind == INFO {
                        TokenView::Info(carried_message(message))
                    } else {
                        TokenView::Error(carried_message(message))
                    },
                ),
            ),
            rest,
        ),
{
    lemma_message_reads_back(message);
    lemma_framed_reads_back(
        columns,
        kind,
        message_body(message),
        if kind == INFO {
            TokenView::Info(carried_message(message))
        } else {
            TokenView::Error(carried_message(message))
        },
        rest,
    );
}

/// A ROW reads back.
proof fn lemma_row_reads_back(
    columns: Seq<ColumnView>,
    values: Seq<Option<Seq<char>>>,
    rest: Seq<u8>,
)
    requires
        carries(columns, TokenView::Row(values)),
    ensures
        next_row(carried_columns(columns), cells_bytes(columns, values) + rest) == (
            Ok::<TokenView, Fault>(TokenView::Row(carried_row(columns, values))),
            rest,
        ),
{
    assert(columns.skip(0) =~= columns);
    assert(values.skip(0) =~= values);
    assert(carried_row(columns, values).skip(0) =~= carried_row(columns, values));
    lemma_cells_read_back(columns, values, 0, rest);
}

/// A token reads back whose rest, behind its byte, does.
proof fn lemma_rest_reads_back(
    columns: Seq<ColumnView>,
    kind: u8,
    behind: Seq<u8>,
    token: TokenView,
    rest: Seq<u8>,
)
    requires
        next_of_kind(columns, kind, behind) == (Ok::<TokenView, Fault>(token), rest),
    ensures
        next_token(columns, seq![kind] + behind) == (
            Ok::<Option<TokenView>, Fault>(Some(token)),
            rest,
        ),
{
    assert((seq![kind] + behind).skip(1) =~= behind);
}

/// A token that the wire carries reads back as what it says once it has been
/// there, and nothing of what follows is read.
pub proof fn lemma_token_reads_back(columns: Seq<ColumnView>, token: TokenView, rest: Seq<u8>)
    requires
        carries(columns, token),
    ensures
        next_token(carried_columns(columns), token_bytes(columns, token) + rest) == (
            Ok::<Option<TokenView>, Fault>(Some(carried(columns, token))),
            rest,
        ),
{
    match token {
        TokenView::Info(message) => lemma_message_token_reads_back(
            carried_columns(columns),
            INFO,
            message,
            rest,
        ),
        TokenView::Error(message) => lemma_message_token_reads_back(
            carried_columns(columns),
            ERROR,
            message,
            rest,
        ),
        TokenView::EnvChange { .. } | TokenView::LoginAck { .. } | TokenView::Order(_) => {
            lemma_short_token_reads_back(columns, token, rest)
        },
        TokenView::ColMetadata(_) | TokenView::Row(_) => lemma_row_token_reads_back(
            columns,
            token,
            rest,
        ),
        _ => lemma_plain_token_reads_back(columns, token, rest),
    }
}

/// An ENVCHANGE, a LOGINACK and an ORDER read back.
proof fn lemma_short_token_reads_back(columns: Seq<ColumnView>, token: TokenView, rest: Seq<u8>)
    requires
        carries(columns, token),
        token is EnvChange || token is LoginAck || token is Order,
    ensures
        next_token(carried_columns(columns), token_bytes(columns, token) + rest) == (
            Ok::<Option<TokenView>, Fault>(Some(carried(columns, token))),
            rest,
        ),
{
    let read = carried_columns(columns);
    let told = carried(columns, token);
    if let TokenView::EnvChange { kind, new, old: was } = token {
        lemma_env_change_reads_back(kind, new, was);
        lemma_framed_reads_back(read, ENVCHANGE, env_change_body(kind, new, was), told, rest);
    }
    if let TokenView::LoginAck { version, program } = token {
        lemma_login_ack_reads_back(version, program);
        lemma_framed_reads_back(read, LOGINACK, login_ack_body(version, program), told, rest);
    }
    if let TokenView::Order(numbers) = token {
        text::lemma_unit_bytes_read_back(numbers);
        lemma_framed_reads_back(read, ORDER, text::unit_bytes(numbers), told, rest);
    }
}

/// A COLMETADATA and a ROW read back.
proof fn lemma_row_token_reads_back(columns: Seq<ColumnView>, token: TokenView, rest: Seq<u8>)
    requires
        carries(columns, token),
        token is ColMetadata || token is Row,
    ensures
        next_token(carried_columns(columns), token_bytes(columns, token) + rest) == (
            Ok::<Option<TokenView>, Fault>(Some(carried(columns, token))),
            rest,
        ),
{
    let read = carried_columns(columns);
    let told = carried(columns, token);
    let s = token_bytes(columns, token) + rest;
    if let TokenView::ColMetadata(declared) = token {
        let behind = wire::le16(column_count(declared.len())) + columns_bytes(declared) + rest;
        lemma_metadata_reads_back(declared, rest);
        assert(next_of_kind(read, COLMETADATA, behind) == next_metadata(behind)) by {
            reveal(next_of_kind);
        }
        lemma_rest_reads_back(read, COLMETADATA, behind, told, rest);
        assert(s =~= seq![COLMETADATA] + behind);
    }
    if let TokenView::Row(values) = token {
        let behind = cells_bytes(columns, values) + rest;
        lemma_row_reads_back(columns, values, rest);
        assert(next_of_kind(read, ROW, behind) == next_row(read, behind)) by {
            reveal(next_of_kind);
        }
        lemma_rest_reads_back(read, ROW, behind, told, rest);
        assert(s =~= seq![ROW] + behind);
    }
}

/// The token that a DONE of the form `kind` is.
spec fn done_token(kind: u8, status: u16, rows: u64) -> TokenView {
    if kind == DONE {
        TokenView::Done { status, rows }
    } else if kind == DONEPROC {
        TokenView::DoneProc { status, rows }
    } else {
        TokenView::DoneInProc { status, rows }
    }
}

/// A token whose rest is that of a DONE or of a RETURNSTATUS is read as one.
proof fn lemma_plain_rest_reads_back(
    columns: Seq<ColumnView>,
    kind: u8,
    behind: Seq<u8>,
    token: TokenView,
    rest: Seq<u8>,
)
    requires
        ({
            ||| (kind == DONE || kind == DONEPROC || kind == DONEINPROC) && next_done(kind, behind)
                == (Ok::<TokenView, Fault>(token), rest)
            ||| kind == RETURNSTATUS && next_return_status(behind) == (
                Ok::<TokenView, Fault>(token),
                rest,
            )
        }),
    ensures
        next_token(columns, seq![kind] + behind) == (
            Ok::<Option<TokenView>, Fault>(Some(token)),
            rest,
        ),
{
    assert(next_of_kind(columns, kind, behind) == (Ok::<TokenView, Fault>(token), rest)) by {
        reveal(next_of_kind);
    }
    lemma_rest_reads_back(columns, kind, behind, token, rest);
}

/// A DONE of any form is read as that DONE.
#[verifier::spinoff_prover]
proof fn lemma_done_token_reads_back(
    columns: Seq<ColumnView>,
    kind: u8,
    status: u16,
    rows: u64,
    rest: Seq<u8>,
)
    requires
        kind == DONE || kind == DONEPROC || kind == DONEINPROC,
    ensures
        next_token(columns, done_bytes(kind, status, rows) + rest) == (
            Ok::<Option<TokenView>, Fault>(Some(done_token(kind, status, rows))),
            rest,
        ),
{
    let behind = wire::le16(status) + (wire::le16(0) + (wire::le64(rows) + rest));
    lemma_done_reads_back(kind, status, rows, rest);
    lemma_plain_rest_reads_back(columns, kind, behind, done_token(kind, status, rows), rest);
    assert(done_bytes(kind, status, rows) + rest =~= seq![kind] + behind);
}

/// A RETURNSTATUS is read as that status.
#[verifier::spinoff_prover]
proof fn lemma_return_status_reads_back(columns: Seq<ColumnView>, status: i32, rest: Seq<u8>)
    ensures
        next_token(columns, seq![RETURNSTATUS] + wire::le_i32(status) + rest) == (
            Ok::<Option<TokenView>, Fault>(Some(TokenView::ReturnStatus(status))),
            rest,
        ),
{
    let behind = wire::le_i32(status) + rest;
    wire::lemma_i32_reads_back(status, rest);
    lemma_plain_rest_reads_back(
        columns,
        RETURNSTATUS,
        behind,
        TokenView::ReturnStatus(status),
        rest,
    );
    assert(seq![RETURNSTATUS] + wire::le_i32(status) + rest =~= seq![RETURNSTATUS] + behind);
}

/// A DONE of any form and a RETURNSTATUS read back.
#[verifier::spinoff_prover]
proof fn lemma_plain_token_reads_back(columns: Seq<ColumnView>, token: TokenView, rest: Seq<u8>)
    requires
        token is Done || token is DoneProc || token is DoneInProc || token is ReturnStatus,
    ensures
        next_token(carried_columns(columns), token_bytes(columns, token) + rest) == (
            Ok::<Option<TokenView>, Fault>(Some(token)),
            rest,
        ),
{
    let read = carried_columns(columns);
    match token {
        TokenView::Done { status, rows } => lemma_done_token_reads_back(
            read,
            DONE,
            status,
            rows,
            rest,
        ),
        TokenView::DoneProc { status, rows } => lemma_done_token_reads_back(
            read,
            DONEPROC,
            status,
            rows,
            rest,
        ),
        TokenView::DoneInProc { status, rows } => lemma_done_token_reads_back(
            read,
            DONEINPROC,
            status,
            rows,
            rest,
        ),
        TokenView::ReturnStatus(status) => lemma_return_status_reads_back(read, status, rest),
        _ => {},
    }
}

// The null bitmap.

/// Cells of which the bitmap marks none absent are read as if there were no
/// bitmap.
proof fn lemma_cells_all_present(
    s: Seq<u8>,
    columns: Seq<ColumnView>,
    bits: Seq<u8>,
    index: nat,
)
    requires
        forall|i: int| 0 <= i < columns.len() ==> !(#[trigger] is_absent(Some(bits), i)),
    ensures
        next_cells(s, columns, Some(bits), index) == next_cells(s, columns, None, index),
    decreases columns.len() - index,
{
    if index < columns.len() {
        assert(!is_absent(Some(bits), index as int));
        let rest = column::next_cell(s, columns[index as int].kind).1;
        lemma_cells_all_present(rest, columns, bits, index + 1);
    }
}

/// Cells that the bitmap marks absent are null, and nothing is read for them.
proof fn lemma_cells_all_absent(
    s: Seq<u8>,
    columns: Seq<ColumnView>,
    bits: Seq<u8>,
    index: nat,
)
    requires
        index <= columns.len(),
        forall|i: int| 0 <= i < columns.len() ==> #[trigger] is_absent(Some(bits), i),
    ensures
        next_cells(s, columns, Some(bits), index) == (
            Ok::<Seq<Option<Seq<char>>>, Fault>(
                Seq::new((columns.len() - index) as nat, |i: int| None),
            ),
            s,
        ),
    decreases columns.len() - index,
{
    let nulls = Seq::new((columns.len() - index) as nat, |i: int| None::<Seq<char>>);
    if index < columns.len() {
        assert(is_absent(Some(bits), index as int));
        lemma_cells_all_absent(s, columns, bits, index + 1);
        let others = Seq::new((columns.len() - index - 1) as nat, |i: int| None::<Seq<char>>);
        assert(nulls =~= seq![None::<Seq<char>>] + others);
    } else {
        assert(nulls =~= Seq::empty());
    }
}

/// An NBCROW whose bitmap marks no column is the ROW of the same cells, and
/// one whose bitmap marks every column is all null without a cell.
pub proof fn lemma_bitmap_marks_nulls(columns: Seq<ColumnView>, bits: Seq<u8>, s: Seq<u8>)
    requires
        bits.len() == (columns.len() + 7) / 8,
    ensures
        (forall|i: int| 0 <= i < columns.len() ==> !(#[trigger] is_absent(Some(bits), i)))
            ==> next_nbc_row(columns, bits + s) == next_row(columns, s),
        (forall|i: int| 0 <= i < columns.len() ==> #[trigger] is_absent(Some(bits), i))
            ==> next_nbc_row(columns, bits + s) == (
            Ok::<TokenView, Fault>(TokenView::Row(Seq::new(columns.len(), |i: int| None))),
            s,
        ),
{
    wire::lemma_take_reads_back(bits, s);
    if forall|i: int| 0 <= i < columns.len() ==> !(#[trigger] is_absent(Some(bits), i)) {
        lemma_cells_all_present(s, columns, bits, 0);
    }
    if forall|i: int| 0 <= i < columns.len() ==> #[trigger] is_absent(Some(bits), i) {
        lemma_cells_all_absent(s, columns, bits, 0);
    }
}

// Every token of a payload.

/// Columns read leave no more than there was.
proof fn lemma_columns_shrink(s: Seq<u8>, count: nat)
    ensures
        next_columns(s, count).1.len() <= s.len(),
    decreases count,
{
    reveal(next_column);
    if count > 0 {
        if s.len() >= 6 {
            column::lemma_type_info_shrinks(s.skip(6));
        }
        lemma_columns_shrink(next_column(s).1, (count - 1) as nat);
    }
}

/// Cells read leave no more than there was.
proof fn lemma_cells_shrink(
    s: Seq<u8>,
    columns: Seq<ColumnView>,
    bitmap: Option<Seq<u8>>,
    index: nat,
)
    ensures
        next_cells(s, columns, bitmap, index).1.len() <= s.len(),
    decreases columns.len() - index,
{
    if index < columns.len() {
        let kind = columns[index as int].kind;
        column::lemma_cell_shrinks(s, kind);
        lemma_cells_shrink(s, columns, bitmap, index + 1);
        lemma_cells_shrink(column::next_cell(s, kind).1, columns, bitmap, index + 1);
    }
}

/// The rest of a token read leaves no more than there was, so every token
/// takes a byte at least and a payload comes to an end.
pub proof fn lemma_rest_shrinks(columns: Seq<ColumnView>, kind: u8, s: Seq<u8>)
    ensures
        next_of_kind(columns, kind, s).1.len() <= s.len(),
{
    reveal(next_of_kind);
    if kind == COLMETADATA && s.len() >= 2 {
        let count = wire::le16_value(s);
        lemma_columns_shrink(
            s.skip(2),
            if count == NO_COLUMNS {
                0
            } else {
                count as nat
            },
        );
    }
    lemma_cells_shrink(s, columns, None, 0);
    let bytes = (columns.len() + 7) / 8;
    if bytes <= s.len() {
        lemma_cells_shrink(s.skip(bytes as int), columns, Some(s.take(bytes as int)), 0);
    }
}

/// The tokens of `s`, `columns` being in force ahead of the first, up to the
/// end or to the first that cannot be read, and why it cannot.
pub open spec fn tokens_in(columns: Seq<ColumnView>, s: Seq<u8>) -> (Seq<TokenView>, Option<Fault>)
    decreases s.len(),
{
    proof {
        if s.len() > 0 {
            lemma_rest_shrinks(columns, s[0], s.skip(1));
        }
    }
    match next_token(columns, s) {
        (Err(fault), _) => (Seq::empty(), Some(fault)),
        (Ok(None), _) => (Seq::empty(), None),
        (Ok(Some(token)), rest) => {
            let others = tokens_in(columns_after(columns, token), rest);
            (seq![token] + others.0, others.1)
        },
    }
}

/// What `tokens` say once they have been on the wire, `columns` being in
/// force ahead of the first.
pub open spec fn all_carried(columns: Seq<ColumnView>, tokens: Seq<TokenView>) -> Seq<TokenView>
    decreases tokens.len(),
{
    if tokens.len() == 0 {
        Seq::empty()
    } else {
        seq![carried(columns, tokens[0])] + all_carried(
            columns_after(columns, tokens[0]),
            tokens.skip(1),
        )
    }
}

/// True of `tokens` that the wire carries, `columns` being in force ahead of
/// the first.
pub open spec fn carries_all(columns: Seq<ColumnView>, tokens: Seq<TokenView>) -> bool
    decreases tokens.len(),
{
    tokens.len() == 0 || {
        &&& carries(columns, tokens[0])
        &&& carries_all(columns_after(columns, tokens[0]), tokens.skip(1))
    }
}

/// Tokens that the wire carries read back from behind the columns in force.
proof fn lemma_tokens_read_back_by(columns: Seq<ColumnView>, tokens: Seq<TokenView>)
    requires
        carries_all(columns, tokens),
    ensures
        tokens_in(carried_columns(columns), tokens_bytes(columns, tokens)) == (
            all_carried(columns, tokens),
            None::<Fault>,
        ),
    decreases tokens.len(),
{
    if tokens.len() > 0 {
        let after = columns_after(columns, tokens[0]);
        let rest = tokens_bytes(after, tokens.skip(1));
        lemma_token_reads_back(columns, tokens[0], rest);
        lemma_tokens_read_back_by(after, tokens.skip(1));
        assert(columns_after(carried_columns(columns), carried(columns, tokens[0]))
            == carried_columns(after));
    }
}

/// A payload of tokens that the wire carries reads back whole, each token as
/// what it says once it has been there.
pub proof fn lemma_tokens_read_back(tokens: Seq<TokenView>)
    requires
        carries_all(Seq::empty(), tokens),
    ensures
        tokens_in(Seq::empty(), tokens_bytes(Seq::empty(), tokens)) == (
            all_carried(Seq::empty(), tokens),
            None::<Fault>,
        ),
{
    assert(carried_columns(Seq::empty()) =~= Seq::empty());
    lemma_tokens_read_back_by(Seq::empty(), tokens);
}

} // verus!
