//! The client's side of one connection to a server: the pre-login, the
//! login, a batch and its rows, a statement and its count. One batch at a
//! time, every value as text, which is what a Location needs.

use vstd::prelude::*;

use crate::batch;
use crate::batch::encode_batch;
use crate::column::{Column, ColumnView};
use crate::error;
use crate::error::{protocol_error, Fault, TransportError};
use crate::login;
use crate::login::{encode_login7, Login, Login7, LoginView};
use crate::number;
use crate::prelogin;
use crate::prelogin::{
    encode_prelogin, read_prelogin, Prelogin, ENCRYPT_NOT_SUP, ENCRYPT_OFF,
};
use crate::text;
use crate::token;
use crate::token::{Message, MessageView, Token, TokenStream, TokenView, ENV_PACKET_SIZE};
use crate::wire;
use crate::wire::{
    DEFAULT_PACKET_SIZE, LOGIN7, MAX_PACKET_SIZE, MIN_PACKET_SIZE, PRELOGIN, SQL_BATCH,
    TABULAR_RESULT,
};

verus! {

/// What a batch came back with.
#[derive(Clone, Debug, PartialEq, Eq)]
pub struct QueryResult {
    pub columns: Vec<String>,
    /// Each row, each column as text or null.
    pub rows: Vec<Vec<Option<String>>>,
    /// What the last DONE that counted said.
    pub rows_affected: u64,
}

/// What a [`QueryResult`] says.
#[verifier::ext_equal]
pub struct QueryResultView {
    pub columns: Seq<Seq<char>>,
    pub rows: Seq<Seq<Option<Seq<char>>>>,
    pub rows_affected: u64,
}

/// What texts say.
pub open spec fn texts_view(texts: Seq<String>) -> Seq<Seq<char>> {
    Seq::new(texts.len(), |i: int| texts[i]@)
}

/// What rows say.
pub open spec fn rows_view(rows: Seq<Vec<Option<String>>>) -> Seq<Seq<Option<Seq<char>>>> {
    Seq::new(rows.len(), |i: int| token::row_view(rows[i]@))
}

impl View for QueryResult {
    type V = QueryResultView;

    open spec fn view(&self) -> QueryResultView {
        QueryResultView {
            columns: texts_view(self.columns@),
            rows: rows_view(self.rows@),
            rows_affected: self.rows_affected,
        }
    }
}

impl DeepView for QueryResult {
    type V = QueryResultView;

    open spec fn deep_view(&self) -> QueryResultView {
        self@
    }
}

/// A batch that came back with nothing.
pub open spec fn no_result() -> QueryResultView {
    QueryResultView { columns: Seq::empty(), rows: Seq::empty(), rows_affected: 0 }
}

impl Default for QueryResult {
    /// A batch that came back with nothing.
    fn default() -> (result: Self)
        ensures
            result@ == no_result(),
    {
        let result: QueryResult = QueryResult {
            columns: Vec::new(),
            rows: Vec::new(),
            rows_affected: 0,
        };
        assert(result@ =~= no_result());
        result
    }
}

// What the server says.

/// True of the numbers that say the trouble is a deadlock, a lock, memory,
/// the connection or a service that is busy or moving.
pub open spec fn is_passing_trouble(number: i32) -> bool {
    ||| number == -2
    ||| number == 233
    ||| number == 1204
    ||| number == 1205
    ||| number == 1222
    ||| number == 8645
    ||| number == 8651
    ||| number == 10053
    ||| number == 10054
    ||| number == 10060
    ||| number == 40197
    ||| number == 40501
    ||| number == 40613
    ||| number == 49918
    ||| number == 49919
    ||| number == 49920
}

/// The failure that an error the server answered is.
pub open spec fn sql_fault(message: MessageView) -> Fault {
    Fault {
        message: "the server answered "@ + number::decimal(message.number as int) + ": "@
            + message.text,
        retryable: is_passing_trouble(message.number),
    }
}

/// An error the server answered, retryable where its number says the
/// trouble is a deadlock, a lock, memory, the connection or a service
/// that is busy or moving — what a later attempt might not meet.
#[must_use]
pub fn sql_error(message: &Message) -> (error: TransportError)
    ensures
        error@ == sql_fault(message@),
{
    let mut text: String = "the server answered ".to_owned();
    text.append(number::signed_text(message.number as i64).as_str());
    text.append(": ");
    text.append(message.text.as_str());
    let n: i32 = message.number;
    if n == -2 || n == 233 || n == 1204 || n == 1205 || n == 1222 || n == 8645 || n == 8651 || n
        == 10053 || n == 10054 || n == 10060 || n == 40197 || n == 40501 || n == 40613 || n
        == 49918 || n == 49919 || n == 49920 {
        TransportError::retryable(text.as_str())
    } else {
        TransportError::permanent(text.as_str())
    }
}

/// The payload of the server's answer, which is always a token stream, or
/// why `message` is not one.
pub open spec fn server_answer(message: Option<(u8, Seq<u8>)>) -> Result<Seq<u8>, Fault> {
    match message {
        Some((kind, body)) => if kind == TABULAR_RESULT {
            Ok(body)
        } else {
            Err(
                error::fault(
                    "packet type "@ + number::hex_name(kind) + " is not a server's answer"@,
                ),
            )
        },
        None => Err(error::fault("the server closed mid-conversation"@)),
    }
}

/// The payload of the server's answer, which is always a token stream; an
/// error for a packet of another type, and where the server closed.
fn answered(message: Option<(u8, Vec<u8>)>) -> (body: Result<Vec<u8>, TransportError>)
    ensures
        error::outcome(body) == server_answer(message.deep_view()),
{
    broadcast use error::lemma_deep_bytes;

    match message {
        Some((kind, body)) => {
            if kind == TABULAR_RESULT {
                Ok(body)
            } else {
                let mut text: String = "packet type ".to_owned();
                text.append(number::hex_name_text(kind).as_str());
                text.append(" is not a server's answer");
                Err(protocol_error(text.as_str()))
            }
        },
        None => Err(protocol_error("the server closed mid-conversation")),
    }
}

// Logging in.

/// The message a client opens with.
pub open spec fn opening() -> Seq<u8> {
    wire::message_bytes(
        PRELOGIN,
        prelogin::prelogin_bytes(prelogin::default_prelogin()),
        DEFAULT_PACKET_SIZE,
    )
}

/// The login message that follows the server's answer to the opening, or why
/// none does.
pub open spec fn login_following(
    message: Option<(u8, Seq<u8>)>,
    database: Seq<char>,
    login: LoginView,
    process_id: u32,
) -> Result<Seq<u8>, Fault> {
    match server_answer(message) {
        Err(fault) => Err(fault),
        Ok(body) => match prelogin::options_read(body, body, prelogin::default_prelogin()) {
            Err(fault) => Err(fault),
            Ok(answer) => if answer.encryption != ENCRYPT_NOT_SUP && answer.encryption
                != ENCRYPT_OFF {
                Err(
                    error::fault(
                        "the server requires encryption, and TLS is `xmip-core-tls`'s (ADR-0033)"@,
                    ),
                )
            } else {
                Ok(
                    wire::message_bytes(
                        LOGIN7,
                        login::login7_bytes(login::login_as_xmip(login, database), process_id),
                        DEFAULT_PACKET_SIZE,
                    ),
                )
            },
        },
    }
}

/// The first error among `tokens`.
pub open spec fn first_error(tokens: Seq<TokenView>) -> Option<MessageView>
    decreases tokens.len(),
{
    if tokens.len() == 0 {
        None
    } else {
        match tokens[0] {
            TokenView::Error(message) => Some(message),
            _ => first_error(tokens.skip(1)),
        }
    }
}

/// What the server called itself in the last acknowledgement of a login among
/// `tokens`.
pub open spec fn program_in(tokens: Seq<TokenView>) -> Option<Seq<char>>
    decreases tokens.len(),
{
    if tokens.len() == 0 {
        None
    } else {
        match tokens.last() {
            TokenView::LoginAck { program, .. } => Some(program),
            _ => program_in(tokens.drop_last()),
        }
    }
}

/// `size` held to what the protocol allows.
pub open spec fn allowed(size: u16) -> u16 {
    if size < MIN_PACKET_SIZE {
        MIN_PACKET_SIZE
    } else if size > MAX_PACKET_SIZE {
        MAX_PACKET_SIZE
    } else {
        size
    }
}

/// The packet size that `tokens` settle on: what the last change of it said
/// that says a number, held to what the protocol allows.
pub open spec fn size_in(tokens: Seq<TokenView>) -> u16
    decreases tokens.len(),
{
    if tokens.len() == 0 {
        DEFAULT_PACKET_SIZE
    } else {
        match tokens.last() {
            TokenView::EnvChange { kind, new, .. } if kind == ENV_PACKET_SIZE && number::u16_in(
                new,
            ) is Some => allowed(number::u16_in(new)->0),
            _ => size_in(tokens.drop_last()),
        }
    }
}

/// What a client knows once it is logged in.
#[verifier::ext_equal]
pub struct ClientView {
    pub packet_size: u16,
    pub program: Seq<char>,
}

/// The client that the server's answer to its login makes, or why it makes
/// none: the first error the server answered, else what cannot be read, else
/// that nothing acknowledges the login.
pub open spec fn logged_in(message: Option<(u8, Seq<u8>)>) -> Result<ClientView, Fault> {
    match server_answer(message) {
        Err(fault) => Err(fault),
        Ok(body) => {
            let (tokens, broken) = token::tokens_in(Seq::empty(), body);
            match (first_error(tokens), broken, program_in(tokens)) {
                (Some(message), _, _) => Err(sql_fault(message)),
                (None, Some(fault), _) => Err(fault),
                (None, None, None) => Err(
                    error::fault("the server did not acknowledge the login"@),
                ),
                (None, None, Some(program)) => Ok(
                    ClientView { packet_size: size_in(tokens), program },
                ),
            }
        },
    }
}

/// A client that is logged in: what the server called itself and the packet
/// size it settled on.
#[derive(Debug, PartialEq, Eq)]
pub struct Client {
    packet_size: u16,
    program: String,
}

impl View for Client {
    type V = ClientView;

    closed spec fn view(&self) -> ClientView {
        ClientView { packet_size: self.packet_size, program: self.program@ }
    }
}

impl DeepView for Client {
    type V = ClientView;

    open spec fn deep_view(&self) -> ClientView {
        self@
    }
}

/// One more token read: it comes behind those seen, ahead of those to come.
proof fn lemma_token_seen(
    all: Seq<TokenView>,
    seen: Seq<TokenView>,
    token: TokenView,
    others: Seq<TokenView>,
)
    requires
        all == seen + (seq![token] + others),
    ensures
        all == seen.push(token) + others,
        seen.push(token).drop_last() == seen,
        seen.push(token).last() == token,
{
    assert(all =~= seen.push(token) + others);
    assert(seen.push(token).drop_last() =~= seen);
}

/// The first error behind tokens without one is the first of all.
proof fn lemma_first_error(seen: Seq<TokenView>, others: Seq<TokenView>)
    requires
        first_error(seen) is None,
    ensures
        first_error(seen + others) == first_error(others),
    decreases seen.len(),
{
    if seen.len() == 0 {
        assert(seen + others =~= others);
    } else {
        lemma_first_error(seen.skip(1), others);
        assert((seen + others).skip(1) =~= seen.skip(1) + others);
    }
}

impl Client {
    /// The message a client opens with: its pre-login.
    #[must_use]
    pub fn prelogin_request() -> (out: Vec<u8>)
        ensures
            out@ == opening(),
    {
        let payload: Vec<u8> = encode_prelogin(&Prelogin::default());
        wire::packets(PRELOGIN, payload.as_slice(), DEFAULT_PACKET_SIZE)
    }

    /// The message that follows the server's answer to the pre-login: `login`
    /// on `database`, from the process `process_id`. An error where the
    /// answer is not a server's, cannot be read, or demands encryption.
    pub fn login_request(
        message: Option<(u8, Vec<u8>)>,
        database: &str,
        login: &Login,
        process_id: u32,
    ) -> (out: Result<Vec<u8>, TransportError>)
        ensures
            error::outcome(out) == login_following(
                message.deep_view(),
                database@,
                login@,
                process_id,
            ),
    {
        broadcast use error::lemma_deep_bytes;

        let body: Vec<u8> = answered(message)?;
        let answer: Prelogin = read_prelogin(body.as_slice())?;
        if answer.encryption != ENCRYPT_NOT_SUP && answer.encryption != ENCRYPT_OFF {
            return Err(
                TransportError::permanent(
                    "the server requires encryption, and TLS is `xmip-core-tls`'s (ADR-0033)",
                ),
            );
        }
        let login7: Login7 = Login7::new(login.clone(), database);
        let payload: Vec<u8> = encode_login7(&login7, process_id);
        Ok(wire::packets(LOGIN7, payload.as_slice(), DEFAULT_PACKET_SIZE))
    }

    /// The client that the server's answer to its login makes. An error where
    /// the answer is not a server's, refuses the login, cannot be read, or
    /// does not acknowledge the login.
    pub fn connected(message: Option<(u8, Vec<u8>)>) -> (client: Result<Self, TransportError>)
        ensures
            error::outcome(client) == logged_in(message.deep_view()),
    {
        broadcast use error::lemma_deep_bytes;

        let body: Vec<u8> = answered(message)?;
        let mut tokens: TokenStream<'_> = TokenStream::new(body.as_slice());
        let mut packet_size: u16 = DEFAULT_PACKET_SIZE;
        let mut acknowledged: Option<String> = None;
        let ghost all = token::tokens_in(Seq::empty(), body@);
        let ghost mut seen: Seq<TokenView> = Seq::empty();
        assert(seen + all.0 =~= all.0);
        loop
            invariant
                server_answer(message.deep_view()) == Ok::<Seq<u8>, Fault>(body@),
                all == token::tokens_in(Seq::empty(), body@),
                all.0 == seen + token::tokens_in(tokens@.columns, tokens@.rest).0,
                all.1 == token::tokens_in(tokens@.columns, tokens@.rest).1,
                first_error(seen) is None,
                packet_size == size_in(seen),
                acknowledged.deep_view() == program_in(seen),
            decreases tokens@.rest.len(),
        {
            let ghost s = tokens@;
            proof {
                lemma_first_error(seen, token::tokens_in(s.columns, s.rest).0);
                if s.rest.len() > 0 {
                    token::lemma_rest_shrinks(s.columns, s.rest[0], s.rest.skip(1));
                }
            }
            match tokens.next_token()? {
                None => {
                    assert(seen + Seq::empty() =~= seen);
                    return match acknowledged {
                        Some(program) => Ok(Client { packet_size, program }),
                        None => Err(protocol_error("the server did not acknowledge the login")),
                    };
                },
                Some(token) => {
                    let ghost told = token@;
                    let ghost others = token::tokens_in(tokens@.columns, tokens@.rest).0;
                    proof {
                        lemma_token_seen(all.0, seen, told, others);
                        lemma_first_error(seen, seq![told]);
                        assert(seen.push(told) =~= seen + seq![told]);
                        assert(seq![told].skip(1) =~= Seq::empty());
                        assert(first_error(Seq::empty()) is None);
                        assert((seq![told] + others).skip(1) =~= others);
                    }
                    match token {
                        Token::LoginAck { program, .. } => {
                            acknowledged = Some(program);
                        },
                        Token::EnvChange { kind, new, .. } => {
                            if kind == ENV_PACKET_SIZE {
                                let digits: Vec<char> = text::chars_of(new.as_str());
                                if let Some(size) = number::read_u16(digits.as_slice()) {
                                    packet_size = wire::allowed_packet_size(size);
                                }
                            }
                        },
                        Token::Error(message) => {
                            return Err(sql_error(&message));
                        },
                        _ => {},
                    }
                    proof {
                        seen = seen.push(told);
                    }
                },
            }
        }
    }

    /// What the server called itself at login.
    #[must_use]
    pub fn program(&self) -> (program: &str)
        ensures
            program@ == self@.program,
    {
        self.program.as_str()
    }

    /// The packet size the server settled on.
    #[must_use]
    pub fn packet_size(&self) -> (size: u16)
        ensures
            size == self@.packet_size,
    {
        self.packet_size
    }

    /// The message that runs `sql`.
    #[must_use]
    pub fn query_request(&self, sql: &str) -> (out: Vec<u8>)
        ensures
            out@ == wire::message_bytes(SQL_BATCH, batch::batch_bytes(sql@), self@.packet_size),
    {
        let payload: Vec<u8> = encode_batch(sql);
        wire::packets(SQL_BATCH, payload.as_slice(), self.packet_size)
    }
}

// The answer to a batch.

/// True of a DONE whose row count is meaningful.
pub open spec fn counts(status: u16) -> bool {
    status / 0x10 % 2 == 1
}

/// The names of `columns`.
pub open spec fn names(columns: Seq<ColumnView>) -> Seq<Seq<char>> {
    Seq::new(columns.len(), |i: int| columns[i].name)
}

/// `result` after one more token of the answer.
pub open spec fn with_token(result: QueryResultView, token: TokenView) -> QueryResultView {
    match token {
        TokenView::ColMetadata(columns) => QueryResultView { columns: names(columns), ..result },
        TokenView::Row(values) => QueryResultView { rows: result.rows.push(values), ..result },
        TokenView::Done { status, rows } | TokenView::DoneProc { status, rows }
        | TokenView::DoneInProc { status, rows } => if counts(status) {
            QueryResultView { rows_affected: rows, ..result }
        } else {
            result
        },
        _ => result,
    }
}

/// What the tokens of an answer come to: the columns last declared, every
/// row, and what the last DONE that counted said.
pub open spec fn result_in(tokens: Seq<TokenView>) -> QueryResultView
    decreases tokens.len(),
{
    if tokens.len() == 0 {
        no_result()
    } else {
        with_token(result_in(tokens.drop_last()), tokens.last())
    }
}

/// The last error among `tokens`.
pub open spec fn last_error(tokens: Seq<TokenView>) -> Option<MessageView>
    decreases tokens.len(),
{
    if tokens.len() == 0 {
        None
    } else {
        match tokens.last() {
            TokenView::Error(message) => Some(message),
            _ => last_error(tokens.drop_last()),
        }
    }
}

/// What the server's answer to a batch comes to, or why it comes to nothing:
/// what cannot be read, else the last error the server answered.
pub open spec fn query_answered(message: Option<(u8, Seq<u8>)>) -> Result<QueryResultView, Fault> {
    match server_answer(message) {
        Err(fault) => Err(fault),
        Ok(body) => {
            let (tokens, broken) = token::tokens_in(Seq::empty(), body);
            match (broken, last_error(tokens)) {
                (Some(fault), _) => Err(fault),
                (None, Some(message)) => Err(sql_fault(message)),
                (None, None) => Ok(result_in(tokens)),
            }
        },
    }
}

/// The rows that the server's answer to a batch says were touched.
pub open spec fn execute_answered(message: Option<(u8, Seq<u8>)>) -> Result<u64, Fault> {
    match query_answered(message) {
        Ok(result) => Ok(result.rows_affected),
        Err(fault) => Err(fault),
    }
}

/// The names of `columns`.
fn column_names(columns: &[Column]) -> (texts: Vec<String>)
    ensures
        texts_view(texts@) == names(token::columns_view(columns@)),
{
    let mut texts: Vec<String> = Vec::new();
    let mut i: usize = 0;
    while i < columns.len()
        invariant
            i <= columns.len(),
            texts_view(texts@) == names(token::columns_view(columns@)).take(i as int),
        decreases columns.len() - i,
    {
        let ghost before = texts@;
        texts.push(columns[i].name.clone());
        assert(texts_view(texts@) =~= texts_view(before).push(columns@[i as int].name@));
        assert(texts_view(texts@) =~= names(token::columns_view(columns@)).take(i + 1));
        i = i + 1;
    }
    assert(texts_view(texts@) =~= names(token::columns_view(columns@)));
    texts
}

/// Takes one more token of the answer.
fn take_token(result: &mut QueryResult, token: Token)
    ensures
        final(result)@ == with_token(old(result)@, token@),
{
    match token {
        Token::ColMetadata(columns) => {
            result.columns = column_names(columns.as_slice());
        },
        Token::Row(values) => {
            result.rows.push(values);
            assert(rows_view(result.rows@) =~= rows_view(old(result).rows@).push(
                token::row_view(values@),
            ));
        },
        Token::Done { status, rows } | Token::DoneProc { status, rows } | Token::DoneInProc {
            status,
            rows,
        } => {
            if status / 0x10 % 2 == 1 {
                result.rows_affected = rows;
            }
        },
        _ => {},
    }
}

impl Client {
    /// What the server's answer to a batch comes to: its rows. An error where
    /// the answer is not a server's, cannot be read, or holds an error.
    pub fn query_answer(message: Option<(u8, Vec<u8>)>) -> (result: Result<
        QueryResult,
        TransportError,
    >)
        ensures
            error::outcome(result) == query_answered(message.deep_view()),
    {
        broadcast use error::lemma_deep_bytes;

        let body: Vec<u8> = answered(message)?;
        let mut tokens: TokenStream<'_> = TokenStream::new(body.as_slice());
        let mut result: QueryResult = QueryResult::default();
        let mut failed: Option<TransportError> = None;
        let ghost all = token::tokens_in(Seq::empty(), body@);
        let ghost mut seen: Seq<TokenView> = Seq::empty();
        assert(seen + all.0 =~= all.0);
        loop
            invariant
                server_answer(message.deep_view()) == Ok::<Seq<u8>, Fault>(body@),
                all == token::tokens_in(Seq::empty(), body@),
                all.0 == seen + token::tokens_in(tokens@.columns, tokens@.rest).0,
                all.1 == token::tokens_in(tokens@.columns, tokens@.rest).1,
                result@ == result_in(seen),
                match last_error(seen) {
                    Some(message) => failed matches Some(error) && error@ == sql_fault(message),
                    None => failed is None,
                },
            decreases tokens@.rest.len(),
        {
            let ghost s = tokens@;
            proof {
                if s.rest.len() > 0 {
                    token::lemma_rest_shrinks(s.columns, s.rest[0], s.rest.skip(1));
                }
            }
            match tokens.next_token()? {
                None => {
                    assert(seen + Seq::empty() =~= seen);
                    return match failed {
                        Some(error) => Err(error),
                        None => Ok(result),
                    };
                },
                Some(token) => {
                    let ghost told = token@;
                    proof {
                        lemma_token_seen(
                            all.0,
                            seen,
                            told,
                            token::tokens_in(tokens@.columns, tokens@.rest).0,
                        );
                        seen = seen.push(told);
                    }
                    match token {
                        Token::Error(message) => {
                            failed = Some(sql_error(&message));
                        },
                        other => take_token(&mut result, other),
                    }
                },
            }
        }
    }

    /// The rows that the server's answer to a batch says were touched; an
    /// error as for [`Client::query_answer`].
    pub fn execute_answer(message: Option<(u8, Vec<u8>)>) -> (rows: Result<u64, TransportError>)
        ensures
            error::outcome(rows) == execute_answered(message.deep_view()),
    {
        let result: QueryResult = Client::query_answer(message)?;
        Ok(result.rows_affected)
    }
}

// Quoting.

/// `text` with every `closer` in it doubled.
pub open spec fn doubled(text: Seq<char>, closer: char) -> Seq<char>
    decreases text.len(),
{
    if text.len() == 0 {
        Seq::empty()
    } else if text[0] == closer {
        seq![closer, closer] + doubled(text.skip(1), closer)
    } else {
        seq![text[0]] + doubled(text.skip(1), closer)
    }
}

/// `text` as a Unicode string literal: `N`, quoted, every quote doubled.
pub open spec fn quoted_literal(text: Seq<char>) -> Seq<char> {
    seq!['N', '\''] + doubled(text, '\'') + seq!['\'']
}

/// `name` as an identifier: bracketed, every closing bracket doubled.
pub open spec fn quoted_identifier(name: Seq<char>) -> Seq<char> {
    seq!['['] + doubled(name, ']') + seq![']']
}

/// Appends `text` with every `closer` in it doubled.
fn push_doubled(out: &mut String, text: &str, closer: char)
    ensures
        final(out)@ == old(out)@ + doubled(text@, closer),
{
    let chars: Vec<char> = text::chars_of(text);
    let mut i: usize = 0;
    assert(text@.skip(0) =~= text@);
    while i < chars.len()
        invariant
            chars@ == text@,
            i <= chars.len(),
            out@ + doubled(text@.skip(i as int), closer) == old(out)@ + doubled(text@, closer),
        decreases chars.len() - i,
    {
        let ghost before = out@;
        if chars[i] == closer {
            out.push(closer);
        }
        out.push(chars[i]);
        proof {
            let rest = text@.skip(i as int);
            assert(rest.skip(1) =~= text@.skip(i + 1));
            assert(out@ + doubled(rest.skip(1), closer) =~= before + doubled(rest, closer));
        }
        i = i + 1;
    }
    assert(text@.skip(i as int) =~= Seq::empty());
    assert(out@ + Seq::empty() =~= out@);
}

/// `text` as a Unicode string literal: `N`, quoted, every quote doubled.
/// `N` because a plain literal is the server's single-byte collation and
/// a Stream is UTF-8.
#[must_use]
pub fn quote_literal(text: &str) -> (quoted: String)
    ensures
        quoted@ == quoted_literal(text@),
{
    let mut out: String = String::new();
    out.push('N');
    out.push('\'');
    push_doubled(&mut out, text, '\'');
    out.push('\'');
    assert(out@ =~= quoted_literal(text@));
    out
}

/// `name` as an identifier: bracketed, every closing bracket doubled.
#[must_use]
pub fn quote_identifier(name: &str) -> (quoted: String)
    ensures
        quoted@ == quoted_identifier(name@),
{
    let mut out: String = String::new();
    out.push('[');
    push_doubled(&mut out, name, ']');
    out.push(']');
    assert(out@ =~= quoted_identifier(name@));
    out
}

/// Quoting doubles the delimiter and nothing else: text without it stands
/// between the delimiters as it is.
pub proof fn lemma_nothing_else_is_doubled(text: Seq<char>, closer: char)
    requires
        !text.contains(closer),
    ensures
        doubled(text, closer) == text,
    decreases text.len(),
{
    if text.len() > 0 {
        assert(text[0] != closer);
        assert forall|i: int| 0 <= i < text.skip(1).len() implies text.skip(1)[i] != closer by {
            assert(text.skip(1)[i] == text[i + 1]);
        }
        lemma_nothing_else_is_doubled(text.skip(1), closer);
        assert(seq![text[0]] + text.skip(1) =~= text);
    } else {
        assert(text =~= Seq::empty());
    }
}

} // verus!
