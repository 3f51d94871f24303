//! The server's side of one connection: what a test puts at the far end,
//! and what the playground drives.
//!
//! Not a database. One session answers one client's pre-login, checks its
//! login against the one expected — or takes any, where none is — and
//! answers each batch from what its owner says or from one fixed table: any
//! SELECT gets the table's rows, an INSERT of one column is recorded as a
//! Stream, anything else is done with no rows. Planning, storage and SQL
//! are a database's.

use vstd::prelude::*;

use crate::arrived::{Arrived, ArrivedView};
use crate::batch;
use crate::batch::read_batch;
use crate::client;
use crate::column::{Column, ColumnType, ColumnView, MAX};
use crate::error;
use crate::error::{protocol_error, Fault, TransportError};
use crate::insert;
use crate::insert::parse_insert;
use crate::login;
use crate::login::{read_login7, Login, Login7, Login7View, LoginView, TDS_7_4};
use crate::number;
use crate::prelogin;
use crate::prelogin::{encode_prelogin, read_prelogin, Prelogin, PreloginView};
use crate::text;
use crate::token;
use crate::token::{
    encode_tokens, Message, Token, TokenView, DONE_COUNT, DONE_ERROR, ENV_DATABASE,
    ENV_PACKET_SIZE,
};
use crate::wire;
use crate::wire::{DEFAULT_PACKET_SIZE, LOGIN7, PRELOGIN, SQL_BATCH, TABULAR_RESULT};

verus! {

/// The number SQL Server answers a refused login with.
pub const LOGIN_FAILED: i32 = 18456;

/// The number it answers a syntax error with.
pub const SYNTAX_ERROR: i32 = 102;

/// What the client did, as [`Session::respond`] reports it.
#[derive(Clone, Debug, PartialEq, Eq)]
pub enum Event {
    /// The client ran a SELECT; here it is.
    Selected(String),
    /// The client inserted one value; here is the Stream.
    Inserted(Arrived),
    /// The client ran something else; here it is.
    Executed(String),
}

/// What an [`Event`] says.
#[verifier::ext_equal]
pub enum EventView {
    Selected(Seq<char>),
    Inserted(ArrivedView),
    Executed(Seq<char>),
}

impl View for Event {
    type V = EventView;

    open spec fn view(&self) -> EventView {
        match self {
            Event::Selected(sql) => EventView::Selected(sql@),
            Event::Inserted(arrived) => EventView::Inserted(arrived@),
            Event::Executed(sql) => EventView::Executed(sql@),
        }
    }
}

impl Event {
    /// The Stream the client inserted, where it did.
    #[must_use]
    pub fn inserted(self) -> (arrived: Option<Arrived>)
        ensures
            match self {
                Event::Inserted(stream) => arrived == Some(stream),
                _ => arrived is None,
            },
    {
        match self {
            Event::Inserted(arrived) => Some(arrived),
            Event::Selected(_) => None,
            Event::Executed(_) => None,
        }
    }
}

/// How a batch is answered.
#[derive(Clone, Debug, PartialEq, Eq)]
pub enum Answer {
    Rows { columns: Vec<String>, rows: Vec<Vec<Option<String>>> },
    /// Done, this many rows touched.
    Complete(u64),
    Error { number: i32, message: String },
}

/// What an [`Answer`] says.
#[verifier::ext_equal]
pub enum AnswerView {
    Rows { columns: Seq<Seq<char>>, rows: Seq<Seq<Option<Seq<char>>>> },
    Complete(u64),
    Error { number: i32, message: Seq<char> },
}

impl View for Answer {
    type V = AnswerView;

    open spec fn view(&self) -> AnswerView {
        match self {
            Answer::Rows { columns, rows } => AnswerView::Rows {
                columns: client::texts_view(columns@),
                rows: client::rows_view(rows@),
            },
            Answer::Complete(rows) => AnswerView::Complete(*rows),
            Answer::Error { number, message } => AnswerView::Error {
                number: *number,
                message: message@,
            },
        }
    }
}

impl DeepView for Answer {
    type V = AnswerView;

    open spec fn deep_view(&self) -> AnswerView {
        self@
    }
}

/// What a session knows: who its client is and what it answers a SELECT with.
#[verifier::ext_equal]
pub struct SessionView {
    /// The client's address.
    pub peer: Seq<char>,
    pub login: Login7View,
    pub columns: Seq<Seq<char>>,
    pub rows: Seq<Seq<Option<Seq<char>>>>,
}

/// One client's session, once it is logged in.
#[derive(Debug)]
pub struct Session {
    peer: String,
    login: Login7,
    columns: Vec<String>,
    rows: Vec<Vec<Option<String>>>,
}

impl View for Session {
    type V = SessionView;

    closed spec fn view(&self) -> SessionView {
        SessionView {
            peer: self.peer@,
            login: self.login@,
            columns: client::texts_view(self.columns@),
            rows: client::rows_view(self.rows@),
        }
    }
}

// Before the login.

/// The payload of the client's next message, which must be of `kind`, or why
/// it is not.
pub open spec fn client_message(message: Option<(u8, Seq<u8>)>, kind: u8) -> Result<
    Seq<u8>,
    Fault,
> {
    match message {
        Some((got, body)) => if got == kind {
            Ok(body)
        } else {
            Err(
                error::fault(
                    "packet type "@ + number::hex_name(got) + " where "@ + number::hex_name(kind)
                        + " was due"@,
                ),
            )
        },
        None => Err(error::fault("the client closed before the login"@)),
    }
}

/// What a session says before the login: its version, no encryption, the
/// default instance, no thread, MARS off.
pub open spec fn session_prelogin() -> PreloginView {
    PreloginView { version: seq![16u8, 0, 4, 0, 0, 0], ..prelogin::default_prelogin() }
}

/// The message that answers the client's pre-login, or why none does.
pub open spec fn prelogin_answered(message: Option<(u8, Seq<u8>)>) -> Result<Seq<u8>, Fault> {
    match client_message(message, PRELOGIN) {
        Err(fault) => Err(fault),
        Ok(body) => match prelogin::options_read(body, body, prelogin::default_prelogin()) {
            Err(fault) => Err(fault),
            Ok(_) => Ok(
                wire::message_bytes(
                    TABULAR_RESULT,
                    prelogin::prelogin_bytes(session_prelogin()),
                    DEFAULT_PACKET_SIZE,
                ),
            ),
        },
    }
}

/// What a refused `user` is told.
pub open spec fn refusal(user: Seq<char>) -> Seq<char> {
    "Login failed for user '"@ + user + "'."@
}

/// What a client whose login is refused is answered.
pub open spec fn refusing_tokens(user: Seq<char>) -> Seq<TokenView> {
    seq![
        TokenView::Error(token::plain_message(LOGIN_FAILED, 14, refusal(user))),
        TokenView::Done { status: DONE_ERROR, rows: 0 },
    ]
}

/// What a session says of the change to `database`.
pub open spec fn changed_to(database: Seq<char>) -> Seq<char> {
    "Changed database context to '"@ + database + "'."@
}

/// What a client whose login is taken is answered.
pub open spec fn accepting_tokens(database: Seq<char>) -> Seq<TokenView> {
    let size = number::decimal(DEFAULT_PACKET_SIZE as int);
    seq![
        TokenView::EnvChange { kind: ENV_DATABASE, new: database, old: "master"@ },
        TokenView::Info(token::plain_message(5701, 0, changed_to(database))),
        TokenView::EnvChange { kind: ENV_PACKET_SIZE, new: size, old: size },
        TokenView::LoginAck { version: TDS_7_4, program: "Microsoft SQL Server (xmip)"@ },
        TokenView::Done { status: 0, rows: 0 },
    ]
}

/// `tokens` as one message of a session's.
pub open spec fn tokens_message(tokens: Seq<TokenView>) -> Seq<u8> {
    wire::message_bytes(
        TABULAR_RESULT,
        token::tokens_bytes(Seq::empty(), tokens),
        DEFAULT_PACKET_SIZE,
    )
}

/// What a client's login is answered, and what becomes of it.
pub struct LoginAnswer {
    /// The message to write, whether the login is taken or refused.
    pub reply: Vec<u8>,
    /// The session, or why the login was refused.
    pub session: Result<Session, TransportError>,
}

/// What a [`LoginAnswer`] says.
#[verifier::ext_equal]
pub struct LoginAnswerView {
    pub reply: Seq<u8>,
    pub session: Result<SessionView, Fault>,
}

impl View for LoginAnswer {
    type V = LoginAnswerView;

    open spec fn view(&self) -> LoginAnswerView {
        LoginAnswerView {
            reply: self.reply@,
            session: match self.session {
                Ok(session) => Ok(session@),
                Err(error) => Err(error@),
            },
        }
    }
}

impl DeepView for LoginAnswer {
    type V = LoginAnswerView;

    open spec fn deep_view(&self) -> LoginAnswerView {
        self@
    }
}

/// What a client at `peer` that gives the login in `message` is answered,
/// where `expected` is demanded or, where it is nothing, any login taken; or
/// why the message is no login.
pub open spec fn login_answered(
    message: Option<(u8, Seq<u8>)>,
    expected: Option<LoginView>,
    peer: Seq<char>,
) -> Result<LoginAnswerView, Fault> {
    match client_message(message, LOGIN7) {
        Err(fault) => Err(fault),
        Ok(body) => match login::login7_read(body) {
            Err(fault) => Err(fault),
            Ok(login) => if expected is Some && expected != Some(login.login) {
                Ok(
                    LoginAnswerView {
                        reply: tokens_message(refusing_tokens(login.login.user)),
                        session: Err(error::fault(refusal(login.login.user))),
                    },
                )
            } else {
                Ok(
                    LoginAnswerView {
                        reply: tokens_message(accepting_tokens(login.database)),
                        session: Ok(
                            SessionView {
                                peer,
                                login,
                                columns: Seq::empty(),
                                rows: Seq::empty(),
                            },
                        ),
                    },
                )
            },
        },
    }
}

/// The payload of the client's next message; an error where it is not of
/// `kind`, and where the client closed.
fn due(message: Option<(u8, Vec<u8>)>, kind: u8) -> (body: Result<Vec<u8>, TransportError>)
    ensures
        error::outcome(body) == client_message(message.deep_view(), kind),
{
    broadcast use error::lemma_deep_bytes;

    match message {
        Some((got, body)) => {
            if got == kind {
                Ok(body)
            } else {
                let mut text: String = "packet type ".to_owned();
                text.append(number::hex_name_text(got).as_str());
                text.append(" where ");
                text.append(number::hex_name_text(kind).as_str());
                text.append(" was due");
                Err(protocol_error(text.as_str()))
            }
        },
        None => Err(protocol_error("the client closed before the login")),
    }
}

/// `tokens` as one message of a session's.
fn token_message(tokens: &[Token]) -> (out: Vec<u8>)
    ensures
        out@ == tokens_message(token::tokens_view(tokens@)),
{
    let payload: Vec<u8> = encode_tokens(tokens);
    wire::packets(TABULAR_RESULT, payload.as_slice(), DEFAULT_PACKET_SIZE)
}

/// The message to a client whose login is refused for `reason`.
fn refusing(reason: &str) -> (out: Vec<u8>)
    ensures
        out@ == tokens_message(
            seq![
                TokenView::Error(token::plain_message(LOGIN_FAILED, 14, reason@)),
                TokenView::Done { status: DONE_ERROR, rows: 0 },
            ],
        ),
{
    let mut tokens: Vec<Token> = Vec::new();
    tokens.push(Token::Error(Message::new(LOGIN_FAILED, 14, reason)));
    tokens.push(Token::Done { status: DONE_ERROR, rows: 0 });
    assert(token::tokens_view(tokens@) =~= seq![
        TokenView::Error(token::plain_message(LOGIN_FAILED, 14, reason@)),
        TokenView::Done { status: DONE_ERROR, rows: 0 },
    ]);
    token_message(tokens.as_slice())
}

/// The message to a client whose login on `database` is taken.
fn accepting(database: &str) -> (out: Vec<u8>)
    ensures
        out@ == tokens_message(accepting_tokens(database@)),
{
    let mut changed: String = "Changed database context to '".to_owned();
    changed.append(database);
    changed.append("'.");
    let mut tokens: Vec<Token> = Vec::new();
    tokens.push(
        Token::EnvChange {
            kind: ENV_DATABASE,
            new: database.to_owned(),
            old: "master".to_owned(),
        },
    );
    tokens.push(Token::Info(Message::new(5701, 0, changed.as_str())));
    tokens.push(
        Token::EnvChange {
            kind: ENV_PACKET_SIZE,
            new: number::unsigned_text(DEFAULT_PACKET_SIZE as u64),
            old: number::unsigned_text(DEFAULT_PACKET_SIZE as u64),
        },
    );
    tokens.push(
        Token::LoginAck { version: TDS_7_4, program: "Microsoft SQL Server (xmip)".to_owned() },
    );
    tokens.push(Token::Done { status: 0, rows: 0 });
    assert(token::tokens_view(tokens@) =~= accepting_tokens(database@));
    token_message(tokens.as_slice())
}

impl Session {
    /// The message that answers the client's pre-login. An error where the
    /// client opened with something else, closed, or sent a pre-login that
    /// cannot be read.
    pub fn prelogin_answer(message: Option<(u8, Vec<u8>)>) -> (out: Result<
        Vec<u8>,
        TransportError,
    >)
        ensures
            error::outcome(out) == prelogin_answered(message.deep_view()),
    {
        broadcast use error::lemma_deep_bytes;

        let body: Vec<u8> = due(message, PRELOGIN)?;
        let _theirs: Prelogin = read_prelogin(body.as_slice())?;
        let mut answer: Prelogin = Prelogin::default();
        answer.version = [16, 0, 4, 0, 0, 0];
        assert(answer@ =~= session_prelogin());
        let payload: Vec<u8> = encode_prelogin(&answer);
        Ok(wire::packets(TABULAR_RESULT, payload.as_slice(), DEFAULT_PACKET_SIZE))
    }

    /// What the client at `peer` is answered for its login: against
    /// `expected` where there is one, by taking any login where there is not.
    /// A wrong user or password is told to the client as error 18456, and is
    /// the session's error. An error where the client sent something else,
    /// closed, or sent a login that cannot be read.
    pub fn login_answer(
        message: Option<(u8, Vec<u8>)>,
        expected: Option<&Login>,
        peer: &str,
    ) -> (answer: Result<LoginAnswer, TransportError>)
        ensures
            error::outcome(answer) == login_answered(
                message.deep_view(),
                match expected {
                    Some(login) => Some(login@),
                    None => None,
                },
                peer@,
            ),
    {
        broadcast use error::lemma_deep_bytes;

        let body: Vec<u8> = due(message, LOGIN7)?;
        let login: Login7 = read_login7(body.as_slice())?;
        let refused: bool = match expected {
            Some(demanded) => !demanded.same_as(&login.login),
            None => false,
        };
        if refused {
            let mut reason: String = "Login failed for user '".to_owned();
            reason.append(login.login.user.as_str());
            reason.append("'.");
            return Ok(
                LoginAnswer {
                    reply: refusing(reason.as_str()),
                    session: Err(TransportError::permanent(reason.as_str())),
                },
            );
        }
        let reply: Vec<u8> = accepting(login.database.as_str());
        let session: Session = Session {
            peer: peer.to_owned(),
            login,
            columns: Vec::new(),
            rows: Vec::new(),
        };
        assert(session@.columns =~= Seq::empty());
        assert(session@.rows =~= Seq::empty());
        Ok(LoginAnswer { reply, session: Ok(session) })
    }

    /// The user the client logged in as.
    #[must_use]
    pub fn user(&self) -> (user: &str)
        ensures
            user@ == self@.login.login.user,
    {
        self.login.login.user.as_str()
    }

    /// The database the client asked for.
    #[must_use]
    pub fn database(&self) -> (database: &str)
        ensures
            database@ == self@.login.database,
    {
        self.login.database.as_str()
    }

    /// The whole login, host and application included.
    #[must_use]
    pub fn login(&self) -> (login: &Login7)
        ensures
            login@ == self@.login,
    {
        &self.login
    }
}

// The table.

/// What names say.
pub open spec fn names_view(names: Seq<&str>) -> Seq<Seq<char>> {
    Seq::new(names.len(), |i: int| names[i]@)
}

/// What one row's values say.
pub open spec fn values_view(values: Seq<Option<&str>>) -> Seq<Option<Seq<char>>> {
    Seq::new(values.len(), |i: int| values[i].deep_view())
}

/// What a table's rows say.
pub open spec fn table_view(rows: Seq<&[Option<&str>]>) -> Seq<Seq<Option<Seq<char>>>> {
    Seq::new(rows.len(), |i: int| values_view(rows[i]@))
}

/// `names`, each as a text of its own.
fn owned_names(names: &[&str]) -> (texts: Vec<String>)
    ensures
        client::texts_view(texts@) == names_view(names@),
{
    let mut texts: Vec<String> = Vec::new();
    let mut i: usize = 0;
    while i < names.len()
        invariant
            i <= names.len(),
            client::texts_view(texts@) == names_view(names@).take(i as int),
        decreases names.len() - i,
    {
        let ghost before = texts@;
        texts.push(names[i].to_owned());
        assert(client::texts_view(texts@) =~= client::texts_view(before).push(
            names@[i as int]@,
        ));
        assert(client::texts_view(texts@) =~= names_view(names@).take(i + 1));
        i = i + 1;
    }
    assert(client::texts_view(texts@) =~= names_view(names@));
    texts
}

/// `values`, each as a text of its own.
fn owned_values(values: &[Option<&str>]) -> (row: Vec<Option<String>>)
    ensures
        token::row_view(row@) == values_view(values@),
{
    let mut row: Vec<Option<String>> = Vec::new();
    let mut i: usize = 0;
    while i < values.len()
        invariant
            i <= values.len(),
            token::row_view(row@) == values_view(values@).take(i as int),
        decreases values.len() - i,
    {
        let ghost before = row@;
        let value: Option<String> = match values[i] {
            Some(text) => Some(text.to_owned()),
            None => None,
        };
        assert(value.deep_view() == values@[i as int].deep_view());
        row.push(value);
        assert(token::row_view(row@) =~= token::row_view(before).push(value.deep_view()));
        assert(token::row_view(row@) =~= values_view(values@).take(i + 1));
        i = i + 1;
    }
    assert(token::row_view(row@) =~= values_view(values@));
    row
}

/// `rows`, each value as a text of its own.
fn owned_rows(rows: &[&[Option<&str>]]) -> (table: Vec<Vec<Option<String>>>)
    ensures
        client::rows_view(table@) == table_view(rows@),
{
    let mut table: Vec<Vec<Option<String>>> = Vec::new();
    let mut i: usize = 0;
    while i < rows.len()
        invariant
            i <= rows.len(),
            client::rows_view(table@) == table_view(rows@).take(i as int),
        decreases rows.len() - i,
    {
        let ghost before = table@;
        let row: Vec<Option<String>> = owned_values(rows[i]);
        table.push(row);
        assert(client::rows_view(table@) =~= client::rows_view(before).push(
            token::row_view(row@),
        ));
        assert(client::rows_view(table@) =~= table_view(rows@).take(i + 1));
        i = i + 1;
    }
    assert(client::rows_view(table@) =~= table_view(rows@));
    table
}

/// A copy of `texts`.
fn copied_texts(texts: &[String]) -> (copy: Vec<String>)
    ensures
        client::texts_view(copy@) == client::texts_view(texts@),
{
    let mut copy: Vec<String> = Vec::new();
    let mut i: usize = 0;
    while i < texts.len()
        invariant
            i <= texts.len(),
            copy@ == texts@.take(i as int),
        decreases texts.len() - i,
    {
        copy.push(texts[i].clone());
        assert(copy@ =~= texts@.take(i + 1));
        i = i + 1;
    }
    assert(copy@ =~= texts@);
    copy
}

/// A copy of one row's values.
fn copied_row(values: &[Option<String>]) -> (copy: Vec<Option<String>>)
    ensures
        copy@ == values@,
{
    let mut copy: Vec<Option<String>> = Vec::new();
    let mut i: usize = 0;
    while i < values.len()
        invariant
            i <= values.len(),
            copy@ == values@.take(i as int),
        decreases values.len() - i,
    {
        copy.push(
            match &values[i] {
                Some(text) => Some(text.clone()),
                None => None,
            },
        );
        assert(copy@ =~= values@.take(i + 1));
        i = i + 1;
    }
    assert(copy@ =~= values@);
    copy
}

/// A copy of `rows`.
fn copied_rows(rows: &[Vec<Option<String>>]) -> (copy: Vec<Vec<Option<String>>>)
    ensures
        client::rows_view(copy@) == client::rows_view(rows@),
{
    let mut copy: Vec<Vec<Option<String>>> = Vec::new();
    let mut i: usize = 0;
    while i < rows.len()
        invariant
            i <= rows.len(),
            client::rows_view(copy@) == client::rows_view(rows@).take(i as int),
        decreases rows.len() - i,
    {
        let ghost before = copy@;
        let row: Vec<Option<String>> = copied_row(rows[i].as_slice());
        copy.push(row);
        assert(client::rows_view(copy@) =~= client::rows_view(before).push(token::row_view(row@)));
        assert(client::rows_view(copy@) =~= client::rows_view(rows@).take(i + 1));
        i = i + 1;
    }
    assert(client::rows_view(copy@) =~= client::rows_view(rows@));
    copy
}

// Answering.

/// The letters of ASCII at the start of `text`, upper-case.
pub open spec fn leading_word(text: Seq<char>) -> Seq<char>
    decreases text.len(),
{
    if text.len() > 0 && 'A' <= insert::upper(text[0]) <= 'Z' {
        seq![insert::upper(text[0])] + leading_word(text.skip(1))
    } else {
        Seq::empty()
    }
}

/// The verb of a statement: its first word, upper-case.
pub open spec fn verb_of(sql: Seq<char>) -> Seq<char> {
    leading_word(text::left_trimmed(sql))
}

/// Where a value inserted into `column` of `table` came from.
pub open spec fn origin(session: SessionView, table: Seq<char>, column: Seq<char>) -> Seq<char> {
    "mssql://"@ + session.peer + "/"@ + session.login.database + "/"@ + table + "/"@ + column
}

/// How `session` answers `sql` and what it reports the client did, where its
/// owner has an answer and where it has none.
pub open spec fn answer_for(
    session: SessionView,
    sql: Seq<char>,
    answered: Option<AnswerView>,
) -> (AnswerView, EventView) {
    match answered {
        Some(answer) => (answer, EventView::Executed(sql)),
        None => if verb_of(sql) == "SELECT"@ {
            (
                AnswerView::Rows { columns: session.columns, rows: session.rows },
                EventView::Selected(sql),
            )
        } else if verb_of(sql) == "INSERT"@ {
            match insert::insert_in(sql) {
                Some((table, column, bytes)) => (
                    AnswerView::Complete(1),
                    EventView::Inserted(
                        ArrivedView { origin_uri: origin(session, table, column), bytes },
                    ),
                ),
                None => (
                    AnswerView::Error {
                        number: SYNTAX_ERROR,
                        message: "only INSERT INTO t (c) VALUES (...) is served here"@,
                    },
                    EventView::Executed(sql),
                ),
            }
        } else {
            (AnswerView::Complete(0), EventView::Executed(sql))
        },
    }
}

/// `names` as columns that carry any text.
pub open spec fn text_columns(names: Seq<Seq<char>>) -> Seq<ColumnView> {
    Seq::new(
        names.len(),
        |i: int| ColumnView { name: names[i], kind: ColumnType::NVarChar(MAX) },
    )
}

/// A ROW for each of `rows`.
pub open spec fn row_tokens(rows: Seq<Seq<Option<Seq<char>>>>) -> Seq<TokenView> {
    Seq::new(rows.len(), |i: int| TokenView::Row(rows[i]))
}

/// The tokens of an answer.
pub open spec fn answer_tokens(answer: AnswerView) -> Seq<TokenView> {
    match answer {
        AnswerView::Rows { columns, rows } => seq![TokenView::ColMetadata(text_columns(columns))]
            + row_tokens(rows) + seq![
            TokenView::Done { status: DONE_COUNT, rows: rows.len() as u64 },
        ],
        AnswerView::Complete(rows) => seq![TokenView::Done { status: DONE_COUNT, rows }],
        AnswerView::Error { number, message } => seq![
            TokenView::Error(token::plain_message(number, 16, message)),
            TokenView::Done { status: DONE_ERROR, rows: 0 },
        ],
    }
}

/// What a client that is logged in runs, or nothing where it closed, or why
/// its message is not a batch.
pub open spec fn batch_run(message: Option<(u8, Seq<u8>)>) -> Result<Option<Seq<char>>, Fault> {
    match message {
        None => Ok(None),
        Some((kind, body)) => if kind == SQL_BATCH {
            match batch::batch_sql(body) {
                Ok(sql) => Ok(Some(sql)),
                Err(fault) => Err(fault),
            }
        } else {
            Err(error::fault("packet type "@ + number::hex_name(kind) + " after the login"@))
        },
    }
}

/// The verb of a statement: its first word, upper-case.
fn verb(sql: &str) -> (word: String)
    ensures
        word@ == verb_of(sql@),
{
    let chars: Vec<char> = text::chars_of(sql);
    let t: &[char] = text::trim_left(chars.as_slice());
    let mut word: String = String::new();
    let mut i: usize = 0;
    assert(t@.skip(0) =~= t@);
    assert(word@ + leading_word(t@) =~= leading_word(t@));
    while i < t.len()
        invariant
            i <= t.len(),
            t@ == text::left_trimmed(sql@),
            word@ + leading_word(t@.skip(i as int)) == leading_word(t@),
        decreases t.len() - i,
    {
        let ghost before = word@;
        let c: char = insert::to_upper(t[i]);
        proof {
            assert(t@.skip(i as int).skip(1) =~= t@.skip(i + 1));
        }
        if c < 'A' || c > 'Z' {
            assert(word@ + Seq::empty() =~= word@);
            return word;
        }
        word.push(c);
        assert(word@ + leading_word(t@.skip(i + 1)) =~= before + (seq![c] + leading_word(
            t@.skip(i + 1),
        )));
        i = i + 1;
    }
    assert(t@.skip(i as int) =~= Seq::empty());
    assert(word@ + Seq::empty() =~= word@);
    word
}

/// `names` as columns that carry any text.
fn texts_as_columns(names: &[String]) -> (columns: Vec<Column>)
    ensures
        token::columns_view(columns@) == text_columns(client::texts_view(names@)),
{
    let mut columns: Vec<Column> = Vec::new();
    let mut i: usize = 0;
    let ghost all = text_columns(client::texts_view(names@));
    while i < names.len()
        invariant
            all == text_columns(client::texts_view(names@)),
            i <= names.len(),
            token::columns_view(columns@) == all.take(i as int),
        decreases names.len() - i,
    {
        let ghost before = columns@;
        let column: Column = Column::text(names[i].as_str());
        columns.push(column);
        assert(token::columns_view(columns@) =~= token::columns_view(before).push(column@));
        assert(token::columns_view(columns@) =~= all.take(i + 1));
        i = i + 1;
    }
    assert(token::columns_view(columns@) =~= all);
    columns
}

/// The tokens of an answer.
fn tokens_of(answer: &Answer) -> (tokens: Vec<Token>)
    ensures
        token::tokens_view(tokens@) == answer_tokens(answer@),
{
    let mut tokens: Vec<Token> = Vec::new();
    match answer {
        Answer::Rows { columns, rows } => {
            tokens.push(Token::ColMetadata(texts_as_columns(columns.as_slice())));
            let ghost told = client::rows_view(rows@);
            let ghost head = seq![
                TokenView::ColMetadata(text_columns(client::texts_view(columns@))),
            ];
            let mut i: usize = 0;
            assert(token::tokens_view(tokens@) =~= head + row_tokens(told).take(0));
            while i < rows.len()
                invariant
                    told == client::rows_view(rows@),
                    i <= rows.len(),
                    token::tokens_view(tokens@) == head + row_tokens(told).take(i as int),
                decreases rows.len() - i,
            {
                let ghost before = tokens@;
                let token: Token = Token::Row(copied_row(rows[i].as_slice()));
                assert(token@ == row_tokens(told)[i as int]);
                tokens.push(token);
                assert(token::tokens_view(tokens@) =~= token::tokens_view(before).push(token@));
                assert(token::tokens_view(tokens@) =~= head + row_tokens(told).take(i + 1));
                i = i + 1;
            }
            assert(row_tokens(told).take(i as int) =~= row_tokens(told));
            let ghost before = tokens@;
            let done: Token = Token::Done { status: DONE_COUNT, rows: rows.len() as u64 };
            tokens.push(done);
            assert(token::tokens_view(tokens@) =~= token::tokens_view(before).push(done@));
            assert(token::tokens_view(tokens@) =~= head + row_tokens(told) + seq![done@]);
        },
        Answer::Complete(rows) => {
            tokens.push(Token::Done { status: DONE_COUNT, rows: *rows });
            assert(token::tokens_view(tokens@) =~= answer_tokens(answer@));
        },
        Answer::Error { number, message } => {
            tokens.push(Token::Error(Message::new(*number, 16, message.as_str())));
            tokens.push(Token::Done { status: DONE_ERROR, rows: 0 });
            assert(token::tokens_view(tokens@) =~= answer_tokens(answer@));
        },
    }
    tokens
}

impl Session {
    /// Answer any SELECT with these `columns` and `rows`, every column
    /// `NVARCHAR(MAX)`.
    #[must_use]
    pub fn with_table(self, columns: &[&str], rows: &[&[Option<&str>]]) -> (session: Self)
        ensures
            session@ == (SessionView {
                columns: names_view(columns@),
                rows: table_view(rows@),
                ..self@
            }),
    {
        let mut session: Session = self;
        session.columns = owned_names(columns);
        session.rows = owned_rows(rows);
        session
    }

    /// What the client's next message runs, or `None` where it closed; an
    /// error where the message is not a batch, or one that cannot be read.
    pub fn batch(message: Option<(u8, Vec<u8>)>) -> (sql: Result<Option<String>, TransportError>)
        ensures
            error::outcome(sql) == batch_run(message.deep_view()),
    {
        broadcast use error::lemma_deep_bytes;

        match message {
            None => Ok(None),
            Some((kind, body)) => {
                if kind == SQL_BATCH {
                    let sql: String = read_batch(body.as_slice())?;
                    Ok(Some(sql))
                } else {
                    let mut text: String = "packet type ".to_owned();
                    text.append(number::hex_name_text(kind).as_str());
                    text.append(" after the login");
                    Err(protocol_error(text.as_str()))
                }
            },
        }
    }

    /// How `sql` is answered and what the client did by it: with what the
    /// session's owner answered first, where it did, and from the table where
    /// it declined.
    #[must_use]
    pub fn answer(&self, sql: &str, answered: Option<Answer>) -> (result: (Answer, Event))
        ensures
            (result.0@, result.1@) == answer_for(self@, sql@, answered.deep_view()),
    {
        if let Some(answer) = answered {
            return (answer, Event::Executed(sql.to_owned()));
        }
        let word: String = verb(sql);
        if word == "SELECT".to_owned() {
            return (
                Answer::Rows {
                    columns: copied_texts(self.columns.as_slice()),
                    rows: copied_rows(self.rows.as_slice()),
                },
                Event::Selected(sql.to_owned()),
            );
        }
        if word == "INSERT".to_owned() {
            return match parse_insert(sql) {
                Some((table, column, bytes)) => {
                    let mut from: String = "mssql://".to_owned();
                    from.append(self.peer.as_str());
                    from.append("/");
                    from.append(self.login.database.as_str());
                    from.append("/");
                    from.append(table.as_str());
                    from.append("/");
                    from.append(column.as_str());
                    (Answer::Complete(1), Event::Inserted(Arrived::new(from, bytes)))
                },
                None => (
                    Answer::Error {
                        number: SYNTAX_ERROR,
                        message: "only INSERT INTO t (c) VALUES (...) is served here".to_owned(),
                    },
                    Event::Executed(sql.to_owned()),
                ),
            };
        }
        (Answer::Complete(0), Event::Executed(sql.to_owned()))
    }

    /// The message that answers `sql`, and what the client did by it: with
    /// what the session's owner answered first, where it did, and from the
    /// table where it declined.
    #[must_use]
    pub fn respond(&self, sql: &str, answered: Option<Answer>) -> (result: (Vec<u8>, Event))
        ensures
            result.0@ == tokens_message(
                answer_tokens(answer_for(self@, sql@, answered.deep_view()).0),
            ),
            result.1@ == answer_for(self@, sql@, answered.deep_view()).1,
    {
        let (answer, event): (Answer, Event) = self.answer(sql, answered);
        let tokens: Vec<Token> = tokens_of(&answer);
        (token_message(tokens.as_slice()), event)
    }
}

} // verus!
