//! What the two ends make of each other: a client's messages as a session
//! reads them, and a session's as a client does, packets and all. What a
//! send inserts is what the far end takes; what a session answers is what a
//! query comes to; a login that is taken makes a client, and one that is
//! refused tells it so.

use vstd::prelude::*;

use crate::arrived::ArrivedView;
use crate::batch;
use crate::binary;
use crate::client;
use crate::client::{ClientView, QueryResultView};
use crate::column;
use crate::column::{ColumnType, ColumnView, MAX};
use crate::error;
use crate::error::Fault;
use crate::insert;
use crate::login;
use crate::login::{Login7View, LoginView};
use crate::number;
use crate::prelogin;
use crate::session;
use crate::session::{AnswerView, EventView, LoginAnswerView, SessionView};
use crate::target;
use crate::text;
use crate::token;
use crate::token::TokenView;
use crate::wire;
use crate::wire::{DEFAULT_PACKET_SIZE, LOGIN7, MAX_MESSAGE, PRELOGIN, SQL_BATCH, TABULAR_RESULT};
use crate::{OutgoingView, TransportView, LOOPBACK_TARGET};

verus! {

/// The message that a peer which is sent `bytes` reads.
pub open spec fn received(bytes: Seq<u8>) -> Result<Option<(u8, Seq<u8>)>, Fault> {
    wire::next_message(None, Seq::empty(), bytes).0
}

/// A message sent is the message read.
proof fn lemma_received(kind: u8, payload: Seq<u8>, packet_size: u16)
    requires
        kind == PRELOGIN || kind == LOGIN7 || kind == SQL_BATCH || kind == TABULAR_RESULT,
        payload.len() <= MAX_MESSAGE,
    ensures
        received(wire::message_bytes(kind, payload, packet_size)) == Ok::<
            Option<(u8, Seq<u8>)>,
            Fault,
        >(Some((kind, payload))),
{
    let table = seq![0x01u8, 0x02, 0x03, 0x04, 0x06, 0x07, 0x08, 0x0E, 0x10, 0x11, 0x12];
    assert(table[0] == SQL_BATCH && table[3] == TABULAR_RESULT && table[8] == LOGIN7 && table[10]
        == PRELOGIN);
    wire::lemma_message_reads_back(kind, payload, packet_size, Seq::empty());
    let bytes = wire::message_bytes(kind, payload, packet_size);
    assert(bytes + Seq::empty() =~= bytes);
}

// The pre-login.

/// A client's opening is answered by a session, and the answer lets the
/// client log in.
pub proof fn lemma_opening_leads_to_the_login(
    database: Seq<char>,
    login: LoginView,
    process_id: u32,
)
    ensures
        ({
            let theirs = prelogin::prelogin_bytes(prelogin::default_prelogin());
            let ours = prelogin::prelogin_bytes(session::session_prelogin());
            let reply = wire::message_bytes(TABULAR_RESULT, ours, DEFAULT_PACKET_SIZE);
            &&& received(client::opening()) == Ok::<Option<(u8, Seq<u8>)>, Fault>(
                Some((PRELOGIN, theirs)),
            )
            &&& session::prelogin_answered(Some((PRELOGIN, theirs))) == Ok::<Seq<u8>, Fault>(reply)
            &&& received(reply) == Ok::<Option<(u8, Seq<u8>)>, Fault>(
                Some((TABULAR_RESULT, ours)),
            )
            &&& client::login_following(
                Some((TABULAR_RESULT, ours)),
                database,
                login,
                process_id,
            ) == Ok::<Seq<u8>, Fault>(
                wire::message_bytes(
                    LOGIN7,
                    login::login7_bytes(login::login_as_xmip(login, database), process_id),
                    DEFAULT_PACKET_SIZE,
                ),
            )
        }),
{
    let theirs = prelogin::default_prelogin();
    let ours = session::session_prelogin();
    lemma_short_prelogin(theirs);
    lemma_short_prelogin(ours);
    lemma_received(PRELOGIN, prelogin::prelogin_bytes(theirs), DEFAULT_PACKET_SIZE);
    lemma_received(TABULAR_RESULT, prelogin::prelogin_bytes(ours), DEFAULT_PACKET_SIZE);
}

/// A server that demands encryption, whatever else it says, gets no login:
/// the client fails, and no later attempt will change that.
pub proof fn lemma_demand_for_encryption_is_refused(
    said: prelogin::PreloginView,
    database: Seq<char>,
    login: LoginView,
    process_id: u32,
)
    requires
        said.version.len() == 6,
        !said.instance.contains('\0'),
        vstd::utf8::encode_utf8(said.instance).len() + 38 <= 0xFFFF,
        said.encryption == prelogin::ENCRYPT_ON || said.encryption == prelogin::ENCRYPT_REQ,
    ensures
        client::login_following(
            Some((TABULAR_RESULT, prelogin::prelogin_bytes(said))),
            database,
            login,
            process_id,
        ) == Err::<Seq<u8>, Fault>(
            error::fault(
                "the server requires encryption, and TLS is `xmip-core-tls`'s (ADR-0033)"@,
            ),
        ),
{
    prelogin::lemma_prelogin_reads_back(said);
}

/// A pre-login of the default instance is short and reads back.
proof fn lemma_short_prelogin(said: prelogin::PreloginView)
    requires
        said.version.len() == 6,
        said.instance == Seq::<char>::empty(),
    ensures
        prelogin::prelogin_bytes(said).len() <= MAX_MESSAGE,
        prelogin::options_read(
            prelogin::prelogin_bytes(said),
            prelogin::prelogin_bytes(said),
            prelogin::default_prelogin(),
        ) == Ok::<prelogin::PreloginView, Fault>(said),
{
    assert(vstd::utf8::encode_utf8(said.instance) =~= Seq::empty());
    assert(!said.instance.contains('\0'));
    prelogin::lemma_prelogin_reads_back(said);
}

// The login.

/// The message a client logs in with.
pub open spec fn login_message(database: Seq<char>, login: LoginView, process_id: u32) -> Seq<u8> {
    wire::message_bytes(
        LOGIN7,
        login::login7_bytes(login::login_as_xmip(login, database), process_id),
        DEFAULT_PACKET_SIZE,
    )
}

/// Fields that the offset table can name are not long.
proof fn lemma_nameable_is_short(fields: Seq<Seq<u8>>, at: nat)
    requires
        login::nameable(fields, at),
    ensures
        login::field_tail(fields).len() == 0 || at + login::field_tail(fields).len() <= 0x2FFFE,
    decreases fields.len(),
{
    if fields.len() > 0 {
        lemma_nameable_is_short(fields.skip(1), at + fields[0].len());
    }
}

/// A login that the offset table can name reaches the session whole.
proof fn lemma_login_reaches_the_session(database: Seq<char>, login: LoginView, process_id: u32)
    requires
        login::nameable(login::login_fields(login::login_as_xmip(login, database)), 94),
    ensures
        ({
            let whole = login::login_as_xmip(login, database);
            let body = login::login7_bytes(whole, process_id);
            &&& received(login_message(database, login, process_id)) == Ok::<
                Option<(u8, Seq<u8>)>,
                Fault,
            >(Some((LOGIN7, body)))
            &&& login::login7_read(body) == Ok::<Login7View, Fault>(whole)
        }),
{
    let whole = login::login_as_xmip(login, database);
    let body = login::login7_bytes(whole, process_id);
    lemma_nameable_is_short(login::login_fields(whole), 94);
    login::lemma_login_reads_back(whole, process_id);
    login::lemma_login_layout(whole, process_id);
    lemma_received(LOGIN7, body, DEFAULT_PACKET_SIZE);
}

/// UTF-16 takes two units at most for a character.
proof fn lemma_units_of_text(text: Seq<char>)
    ensures
        text::utf16(text).len() <= 2 * text.len(),
    decreases text.len(),
{
    if text.len() > 0 {
        lemma_units_of_text(text.drop_first());
    }
}

/// Tokens that say nothing of columns are carried each by itself, whatever
/// columns are in force.
proof fn lemma_plain_tokens(columns: Seq<ColumnView>, tokens: Seq<TokenView>)
    requires
        forall|i: int|
            0 <= i < tokens.len() ==> {
                &&& !((#[trigger] tokens[i]) is ColMetadata)
                &&& !(tokens[i] is Row)
                &&& token::carries(Seq::empty(), tokens[i])
            },
    ensures
        token::carries_all(columns, tokens),
        token::all_carried(columns, tokens) == Seq::new(
            tokens.len(),
            |i: int| token::carried(Seq::empty(), tokens[i]),
        ),
    decreases tokens.len(),
{
    let told = Seq::new(tokens.len(), |i: int| token::carried(Seq::empty(), tokens[i]));
    if tokens.len() == 0 {
        assert(told =~= Seq::empty());
    } else {
        let others = tokens.skip(1);
        assert forall|i: int| 0 <= i < others.len() implies {
            &&& !((#[trigger] others[i]) is ColMetadata)
            &&& !(others[i] is Row)
            &&& token::carries(Seq::empty(), others[i])
        } by {
            assert(others[i] == tokens[i + 1]);
        }
        assert(!(tokens[0] is ColMetadata));
        lemma_plain_tokens(columns, others);
        assert(told =~= seq![token::carried(Seq::empty(), tokens[0])] + Seq::new(
            others.len(),
            |i: int| token::carried(Seq::empty(), others[i]),
        ));
    }
}

/// Tokens among which there is no error have no first one and no last one.
proof fn lemma_no_error(tokens: Seq<TokenView>)
    requires
        forall|i: int| 0 <= i < tokens.len() ==> !((#[trigger] tokens[i]) is Error),
    ensures
        client::first_error(tokens) is None,
        client::last_error(tokens) is None,
    decreases tokens.len(),
{
    if tokens.len() > 0 {
        assert(!(tokens[0] is Error));
        assert(!(tokens.last() is Error));
        assert forall|i: int| 0 <= i < tokens.skip(1).len() implies !((#[trigger] tokens.skip(
            1,
        )[i]) is Error) by {
            assert(tokens.skip(1)[i] == tokens[i + 1]);
        }
        assert forall|i: int| 0 <= i < tokens.drop_last().len() implies !((
        #[trigger] tokens.drop_last()[i]) is Error) by {
            assert(tokens.drop_last()[i] == tokens[i]);
        }
        lemma_no_error(tokens.skip(1));
        lemma_no_error(tokens.drop_last());
    }
}

/// What a session's tokens are read as by the client that is sent them.
proof fn lemma_tokens_received(tokens: Seq<TokenView>)
    requires
        token::carries_all(Seq::empty(), tokens),
        token::tokens_bytes(Seq::empty(), tokens).len() <= MAX_MESSAGE,
    ensures
        ({
            let body = token::tokens_bytes(Seq::empty(), tokens);
            &&& received(session::tokens_message(tokens)) == Ok::<Option<(u8, Seq<u8>)>, Fault>(
                Some((TABULAR_RESULT, body)),
            )
            &&& token::tokens_in(Seq::empty(), body) == (
                token::all_carried(Seq::empty(), tokens),
                None::<Fault>,
            )
        }),
{
    let body = token::tokens_bytes(Seq::empty(), tokens);
    lemma_received(TABULAR_RESULT, body, DEFAULT_PACKET_SIZE);
    token::lemma_tokens_read_back(tokens);
}

/// A token that says nothing of columns is short.
proof fn lemma_plain_token_is_short(columns: Seq<ColumnView>, token: TokenView)
    requires
        !(token is ColMetadata),
        !(token is Row),
        token::carries(Seq::empty(), token),
    ensures
        token::token_bytes(columns, token).len() <= 0x1_0010,
{
}

/// A few tokens that say nothing of columns are a message.
proof fn lemma_plain_tokens_are_short(columns: Seq<ColumnView>, tokens: Seq<TokenView>)
    requires
        forall|i: int|
            0 <= i < tokens.len() ==> {
                &&& !((#[trigger] tokens[i]) is ColMetadata)
                &&& !(tokens[i] is Row)
                &&& token::carries(Seq::empty(), tokens[i])
            },
    ensures
        token::tokens_bytes(columns, tokens).len() <= 0x1_0010 * tokens.len(),
    decreases tokens.len(),
{
    if tokens.len() > 0 {
        let others = tokens.skip(1);
        assert forall|i: int| 0 <= i < others.len() implies {
            &&& !((#[trigger] others[i]) is ColMetadata)
            &&& !(others[i] is Row)
            &&& token::carries(Seq::empty(), others[i])
        } by {
            assert(others[i] == tokens[i + 1]);
        }
        assert(!(tokens[0] is ColMetadata));
        lemma_plain_token_is_short(columns, tokens[0]);
        lemma_plain_tokens_are_short(columns, others);
    }
}

/// A few tokens that say nothing of columns are read by the client that is
/// sent them, each as what it says once it has been on the wire.
proof fn lemma_plain_tokens_received(tokens: Seq<TokenView>)
    requires
        tokens.len() <= 8,
        forall|i: int|
            0 <= i < tokens.len() ==> {
                &&& !((#[trigger] tokens[i]) is ColMetadata)
                &&& !(tokens[i] is Row)
                &&& token::carries(Seq::empty(), tokens[i])
            },
    ensures
        ({
            let body = token::tokens_bytes(Seq::empty(), tokens);
            &&& received(session::tokens_message(tokens)) == Ok::<Option<(u8, Seq<u8>)>, Fault>(
                Some((TABULAR_RESULT, body)),
            )
            &&& token::tokens_in(Seq::empty(), body) == (
                Seq::new(tokens.len(), |i: int| token::carried(Seq::empty(), tokens[i])),
                None::<Fault>,
            )
        }),
{
    lemma_plain_tokens(Seq::empty(), tokens);
    lemma_plain_tokens_are_short(Seq::empty(), tokens);
    lemma_tokens_received(tokens);
}

/// A message from nowhere named is carried as it is.
proof fn lemma_plain_message_is_carried(number: i32, class: u8, said: Seq<char>)
    ensures
        token::carried_message(token::plain_message(number, class, said)) == token::plain_message(
            number,
            class,
            said,
        ),
{
    let message = token::plain_message(number, class, said);
    assert(text::utf16(Seq::empty()) =~= Seq::empty());
    wire::lemma_short_text_is_not_cut(Seq::empty(), 0xFF);
    assert(token::carried_message(message) =~= message);
}

/// What the tokens of an accepted login are once they have been on the wire.
proof fn lemma_accepting_tokens_are_carried(database: Seq<char>)
    requires
        token::message_body(token::plain_message(5701, 0, session::changed_to(database))).len()
            <= 0xFFFF,
    ensures
        ({
            let tokens = session::accepting_tokens(database);
            let told = Seq::new(tokens.len(), |i: int| token::carried(Seq::empty(), tokens[i]));
            &&& tokens.len() == 5
            &&& forall|i: int|
                0 <= i < tokens.len() ==> {
                    &&& !((#[trigger] tokens[i]) is ColMetadata)
                    &&& !(tokens[i] is Row)
                    &&& token::carries(Seq::empty(), tokens[i])
                }
            &&& forall|i: int| 0 <= i < told.len() ==> !((#[trigger] told[i]) is Error)
            &&& told[2] == tokens[2]
            &&& told[3] == tokens[3]
            &&& told[4] == tokens[4]
        }),
{
    let tokens = session::accepting_tokens(database);
    let size = number::decimal(DEFAULT_PACKET_SIZE as int);
    reveal_strlit("Microsoft SQL Server (xmip)");
    lemma_units_of_text("Microsoft SQL Server (xmip)"@);
    wire::lemma_short_text_is_not_cut("Microsoft SQL Server (xmip)"@, 0xFF);
    assert(size.len() == 4) by {
        reveal_with_fuel(number::digits, 5);
    }
    lemma_units_of_text(size);
    wire::lemma_short_text_is_not_cut(size, 0xFF);
}

/// What a client reads in the tokens of an accepted login.
proof fn lemma_accepted_tokens_say(told: Seq<TokenView>)
    requires
        told.len() == 5,
        told[2] == (TokenView::EnvChange {
            kind: token::ENV_PACKET_SIZE,
            new: number::decimal(DEFAULT_PACKET_SIZE as int),
            old: number::decimal(DEFAULT_PACKET_SIZE as int),
        }),
        told[3] == (TokenView::LoginAck {
            version: login::TDS_7_4,
            program: "Microsoft SQL Server (xmip)"@,
        }),
        told[4] == (TokenView::Done { status: 0, rows: 0 }),
    ensures
        client::program_in(told) == Some("Microsoft SQL Server (xmip)"@),
        client::size_in(told) == DEFAULT_PACKET_SIZE,
{
    reveal_with_fuel(client::program_in, 3);
    reveal_with_fuel(client::size_in, 4);
    let four = told.drop_last();
    let three = four.drop_last();
    assert(told.last() == told[4]);
    assert(four.last() == told[3]);
    assert(three.last() == told[2]);
    number::lemma_u16_reads_back(DEFAULT_PACKET_SIZE);
}

/// An accepted login's answer makes a client.
proof fn lemma_acceptance_is_told(database: Seq<char>)
    requires
        token::message_body(token::plain_message(5701, 0, session::changed_to(database))).len()
            <= 0xFFFF,
    ensures
        ({
            let tokens = session::accepting_tokens(database);
            let answer = token::tokens_bytes(Seq::empty(), tokens);
            &&& received(session::tokens_message(tokens)) == Ok::<Option<(u8, Seq<u8>)>, Fault>(
                Some((TABULAR_RESULT, answer)),
            )
            &&& client::logged_in(Some((TABULAR_RESULT, answer))) == Ok::<ClientView, Fault>(
                ClientView {
                    packet_size: DEFAULT_PACKET_SIZE,
                    program: "Microsoft SQL Server (xmip)"@,
                },
            )
        }),
{
    let tokens = session::accepting_tokens(database);
    let told = Seq::new(tokens.len(), |i: int| token::carried(Seq::empty(), tokens[i]));
    lemma_accepting_tokens_are_carried(database);
    lemma_plain_tokens_received(tokens);
    lemma_no_error(told);
    lemma_accepted_tokens_say(told);
}

/// A login that is the one demanded, or any where none is, makes a session
/// that knows it whole and a client that knows the server by its name. The
/// offset table can name the login's fields, and the database's name fits
/// the message that announces it.
pub proof fn lemma_login_is_taken(
    database: Seq<char>,
    login: LoginView,
    process_id: u32,
    expected: Option<LoginView>,
    peer: Seq<char>,
)
    requires
        login::nameable(login::login_fields(login::login_as_xmip(login, database)), 94),
        token::message_body(token::plain_message(5701, 0, session::changed_to(database))).len()
            <= 0xFFFF,
        expected is None || expected == Some(login),
    ensures
        ({
            let whole = login::login_as_xmip(login, database);
            let body = login::login7_bytes(whole, process_id);
            let reply = session::tokens_message(session::accepting_tokens(database));
            let answer = token::tokens_bytes(Seq::empty(), session::accepting_tokens(database));
            &&& received(login_message(database, login, process_id)) == Ok::<
                Option<(u8, Seq<u8>)>,
                Fault,
            >(Some((LOGIN7, body)))
            &&& session::login_answered(Some((LOGIN7, body)), expected, peer) == Ok::<
                LoginAnswerView,
                Fault,
            >(
                LoginAnswerView {
                    reply,
                    session: Ok(
                        SessionView {
                            peer,
                            login: whole,
                            columns: Seq::empty(),
                            rows: Seq::empty(),
                        },
                    ),
                },
            )
            &&& received(reply) == Ok::<Option<(u8, Seq<u8>)>, Fault>(
                Some((TABULAR_RESULT, answer)),
            )
            &&& client::logged_in(Some((TABULAR_RESULT, answer))) == Ok::<ClientView, Fault>(
                ClientView {
                    packet_size: DEFAULT_PACKET_SIZE,
                    program: "Microsoft SQL Server (xmip)"@,
                },
            )
        }),
{
    lemma_login_reaches_the_session(database, login, process_id);
    lemma_acceptance_is_told(database);
}

/// An error that a session answers is the error its client reads.
proof fn lemma_error_is_told(number: i32, class: u8, said: Seq<char>)
    requires
        token::message_body(token::plain_message(number, class, said)).len() <= 0xFFFF,
    ensures
        ({
            let message = token::plain_message(number, class, said);
            let tokens = seq![
                TokenView::Error(message),
                TokenView::Done { status: token::DONE_ERROR, rows: 0 },
            ];
            let answer = token::tokens_bytes(Seq::empty(), tokens);
            &&& received(session::tokens_message(tokens)) == Ok::<Option<(u8, Seq<u8>)>, Fault>(
                Some((TABULAR_RESULT, answer)),
            )
            &&& client::logged_in(Some((TABULAR_RESULT, answer))) == Err::<ClientView, Fault>(
                client::sql_fault(message),
            )
            &&& client::query_answered(Some((TABULAR_RESULT, answer))) == Err::<
                QueryResultView,
                Fault,
            >(client::sql_fault(message))
        }),
{
    let message = token::plain_message(number, class, said);
    let tokens = seq![
        TokenView::Error(message),
        TokenView::Done { status: token::DONE_ERROR, rows: 0 },
    ];
    let told = Seq::new(tokens.len(), |i: int| token::carried(Seq::empty(), tokens[i]));
    lemma_plain_message_is_carried(number, class, said);
    lemma_plain_tokens_received(tokens);
    assert(told =~= tokens);
    assert(client::first_error(tokens) == Some(message));
    assert(client::last_error(tokens) == Some(message)) by {
        assert(tokens.drop_last() =~= seq![TokenView::Error(message)]);
        assert(client::last_error(seq![TokenView::Error(message)]) == Some(message));
    }
}

/// A login that is not the one demanded is refused: the session fails with
/// what it tells the client, and the client with what it is told, as error
/// 18456, which no later attempt will change. The offset table can name the
/// login's fields, and the user's name fits the message that refuses it.
pub proof fn lemma_login_is_refused(
    database: Seq<char>,
    login: LoginView,
    process_id: u32,
    demanded: LoginView,
    peer: Seq<char>,
)
    requires
        login::nameable(login::login_fields(login::login_as_xmip(login, database)), 94),
        token::message_body(
            token::plain_message(session::LOGIN_FAILED, 14, session::refusal(login.user)),
        ).len() <= 0xFFFF,
        demanded != login,
    ensures
        ({
            let whole = login::login_as_xmip(login, database);
            let body = login::login7_bytes(whole, process_id);
            let tokens = session::refusing_tokens(login.user);
            let answer = token::tokens_bytes(Seq::empty(), tokens);
            let refused = token::plain_message(
                session::LOGIN_FAILED,
                14,
                session::refusal(login.user),
            );
            &&& received(login_message(database, login, process_id)) == Ok::<
                Option<(u8, Seq<u8>)>,
                Fault,
            >(Some((LOGIN7, body)))
            &&& session::login_answered(Some((LOGIN7, body)), Some(demanded), peer) == Ok::<
                LoginAnswerView,
                Fault,
            >(
                LoginAnswerView {
                    reply: session::tokens_message(tokens),
                    session: Err(error::fault(session::refusal(login.user))),
                },
            )
            &&& received(session::tokens_message(tokens)) == Ok::<Option<(u8, Seq<u8>)>, Fault>(
                Some((TABULAR_RESULT, answer)),
            )
            &&& client::logged_in(Some((TABULAR_RESULT, answer))) == Err::<ClientView, Fault>(
                client::sql_fault(refused),
            )
            &&& !client::sql_fault(refused).retryable
        }),
{
    lemma_login_reaches_the_session(database, login, process_id);
    lemma_error_is_told(session::LOGIN_FAILED, 14, session::refusal(login.user));
}

// A batch and its answer.

/// An error that a session answers a batch with fails the client's query
/// with what it said, and the client's statement too. What it says fits the
/// message it is said in.
pub proof fn lemma_error_fails_the_query(number: i32, said: Seq<char>)
    requires
        token::message_body(token::plain_message(number, 16, said)).len() <= 0xFFFF,
    ensures
        ({
            let tokens = session::answer_tokens(AnswerView::Error { number, message: said });
            let answer = token::tokens_bytes(Seq::empty(), tokens);
            let fault = client::sql_fault(token::plain_message(number, 16, said));
            &&& received(session::tokens_message(tokens)) == Ok::<Option<(u8, Seq<u8>)>, Fault>(
                Some((TABULAR_RESULT, answer)),
            )
            &&& client::query_answered(Some((TABULAR_RESULT, answer))) == Err::<
                QueryResultView,
                Fault,
            >(fault)
            &&& client::execute_answered(Some((TABULAR_RESULT, answer))) == Err::<u64, Fault>(fault)
        }),
{
    lemma_error_is_told(number, 16, said);
}

/// The count that a session completes a batch with is the count its client
/// reads, and there are no rows.
pub proof fn lemma_count_is_read(rows: u64)
    ensures
        ({
            let tokens = session::answer_tokens(AnswerView::Complete(rows));
            let answer = token::tokens_bytes(Seq::empty(), tokens);
            &&& received(session::tokens_message(tokens)) == Ok::<Option<(u8, Seq<u8>)>, Fault>(
                Some((TABULAR_RESULT, answer)),
            )
            &&& client::query_answered(Some((TABULAR_RESULT, answer))) == Ok::<
                QueryResultView,
                Fault,
            >(QueryResultView { rows_affected: rows, ..client::no_result() })
            &&& client::execute_answered(Some((TABULAR_RESULT, answer))) == Ok::<u64, Fault>(rows)
        }),
{
    let tokens = session::answer_tokens(AnswerView::Complete(rows));
    let told = Seq::new(tokens.len(), |i: int| token::carried(Seq::empty(), tokens[i]));
    lemma_plain_tokens_received(tokens);
    assert(told =~= tokens);
    lemma_no_error(tokens);
    reveal_with_fuel(client::result_in, 2);
    assert(tokens.drop_last() =~= Seq::empty());
}

/// True of a table that a session can send: no more columns than a count of
/// them can say, a value for every column in each row, and each value short
/// enough for a length to say.
pub open spec fn is_table(columns: Seq<Seq<char>>, rows: Seq<Seq<Option<Seq<char>>>>) -> bool {
    &&& columns.len() < token::NO_COLUMNS
    &&& rows.len() <= u64::MAX
    &&& forall|i: int| 0 <= i < rows.len() ==> (#[trigger] rows[i]).len() == columns.len()
    &&& forall|i: int, j: int|
        0 <= i < rows.len() && 0 <= j < columns.len() ==> (#[trigger] rows[i][j] matches Some(
            said,
        ) ==> wire::ucs2_bytes(said).len() < column::PLP_UNKNOWN)
}

/// A row's values are carried as they are by columns that carry any text.
proof fn lemma_row_is_kept(names: Seq<Seq<char>>, row: Seq<Option<Seq<char>>>)
    requires
        row.len() == names.len(),
        forall|j: int|
            0 <= j < names.len() ==> (#[trigger] row[j] matches Some(said) ==> wire::ucs2_bytes(
                said,
            ).len() < column::PLP_UNKNOWN),
    ensures
        token::carries(session::text_columns(names), TokenView::Row(row)),
        token::carried_row(session::text_columns(names), row) == row,
{
    let columns = session::text_columns(names);
    assert forall|j: int| 0 <= j < columns.len() implies column::carries(
        columns[j].kind,
        #[trigger] row[j],
    ) by {
        assert(columns[j].kind == ColumnType::NVarChar(MAX));
    }
    assert forall|j: int| 0 <= j < columns.len() implies #[trigger] token::carried_row(
        columns,
        row,
    )[j] == row[j] by {
        if let Some(said) = row[j] {
            column::lemma_whole_text_is_carried(MAX, said);
        }
    }
    assert(token::carried_row(columns, row) =~= row);
}

/// Rows, and the DONE behind them, are carried as they are behind columns
/// that carry any text.
proof fn lemma_rows_are_kept(
    names: Seq<Seq<char>>,
    rows: Seq<Seq<Option<Seq<char>>>>,
    done: TokenView,
)
    requires
        is_table(names, rows),
        done is Done,
    ensures
        token::carries_all(session::text_columns(names), session::row_tokens(rows) + seq![done]),
        token::all_carried(session::text_columns(names), session::row_tokens(rows) + seq![done])
            == session::row_tokens(rows) + seq![done],
    decreases rows.len(),
{
    let columns = session::text_columns(names);
    let tokens = session::row_tokens(rows) + seq![done];
    if rows.len() == 0 {
        assert(tokens =~= seq![done]);
        assert(tokens.skip(1) =~= Seq::empty());
        assert(token::carries_all(columns, Seq::empty()));
        assert(token::all_carried(columns, Seq::empty()) =~= Seq::empty());
        assert(token::all_carried(columns, tokens) =~= tokens);
    } else {
        let others = rows.skip(1);
        assert forall|i: int| 0 <= i < others.len() implies (#[trigger] others[i]).len()
            == names.len() by {
            assert(others[i] == rows[i + 1]);
        }
        assert forall|i: int, j: int|
            0 <= i < others.len() && 0 <= j < names.len() implies (#[trigger] others[i][j] matches Some(
            said,
        ) ==> wire::ucs2_bytes(said).len() < column::PLP_UNKNOWN) by {
            assert(others[i][j] == rows[i + 1][j]);
        }
        lemma_rows_are_kept(names, others, done);
        assert(tokens.skip(1) =~= session::row_tokens(others) + seq![done]);
        assert(tokens[0] == TokenView::Row(rows[0]));
        lemma_row_is_kept(names, rows[0]);
        assert(token::all_carried(columns, tokens) =~= tokens);
    }
}

/// What the metadata and the rows of an answer come to.
proof fn lemma_rows_come_to(columns: Seq<ColumnView>, rows: Seq<Seq<Option<Seq<char>>>>)
    ensures
        client::result_in(seq![TokenView::ColMetadata(columns)] + session::row_tokens(rows)) == (
        QueryResultView { columns: client::names(columns), rows, rows_affected: 0 }),
    decreases rows.len(),
{
    let head = seq![TokenView::ColMetadata(columns)];
    let tokens = head + session::row_tokens(rows);
    if rows.len() == 0 {
        assert(tokens =~= head);
        assert(head.drop_last() =~= Seq::empty());
        assert(client::result_in(Seq::empty()) == client::no_result());
        assert(rows =~= Seq::empty());
    } else {
        lemma_rows_come_to(columns, rows.drop_last());
        assert(tokens.drop_last() =~= head + session::row_tokens(rows.drop_last()));
        assert(tokens.last() == TokenView::Row(rows.last()));
        assert(rows.drop_last().push(rows.last()) =~= rows);
    }
}

/// Each name as it is once it has been on the wire: cut at 255 characters.
pub open spec fn cut_names(names: Seq<Seq<char>>) -> Seq<Seq<char>> {
    Seq::new(names.len(), |i: int| wire::cut_text(names[i], 0xFF))
}

/// The table that a session answers a query with is the table its client
/// reads, the names of its columns cut at 255 characters, every value as it
/// was, and the count is that of the rows. The whole is one message.
pub proof fn lemma_table_is_read(names: Seq<Seq<char>>, rows: Seq<Seq<Option<Seq<char>>>>)
    requires
        is_table(names, rows),
        token::tokens_bytes(
            Seq::empty(),
            session::answer_tokens(AnswerView::Rows { columns: names, rows }),
        ).len() <= MAX_MESSAGE,
    ensures
        ({
            let tokens = session::answer_tokens(AnswerView::Rows { columns: names, rows });
            let answer = token::tokens_bytes(Seq::empty(), tokens);
            &&& received(session::tokens_message(tokens)) == Ok::<Option<(u8, Seq<u8>)>, Fault>(
                Some((TABULAR_RESULT, answer)),
            )
            &&& client::query_answered(Some((TABULAR_RESULT, answer))) == Ok::<
                QueryResultView,
                Fault,
            >(
                QueryResultView {
                    columns: cut_names(names),
                    rows,
                    rows_affected: rows.len() as u64,
                },
            )
        }),
{
    let tokens = session::answer_tokens(AnswerView::Rows { columns: names, rows });
    let columns = session::text_columns(names);
    let done = TokenView::Done { status: token::DONE_COUNT, rows: rows.len() as u64 };
    let behind = session::row_tokens(rows) + seq![done];
    let head = seq![TokenView::ColMetadata(token::carried_columns(columns))];
    let told = head + behind;
    assert(tokens[0] == TokenView::ColMetadata(columns));
    assert(tokens.skip(1) =~= behind);
    lemma_rows_are_kept(names, rows, done);
    lemma_tokens_received(tokens);
    assert(token::all_carried(Seq::empty(), tokens) =~= told);
    assert forall|i: int| 0 <= i < told.len() implies !((#[trigger] told[i]) is Error) by {}
    lemma_no_error(told);
    lemma_rows_come_to(token::carried_columns(columns), rows);
    assert(told.drop_last() =~= head + session::row_tokens(rows));
    assert(told.last() == done);
    assert(client::names(token::carried_columns(columns)) =~= cut_names(names));
}

/// A SELECT that the session's owner leaves to the table comes to the table:
/// the client reads the session's columns and rows.
pub proof fn lemma_select_reads_the_table(session: SessionView, sql: Seq<char>)
    requires
        session::verb_of(sql) == "SELECT"@,
        is_table(session.columns, session.rows),
        token::tokens_bytes(
            Seq::empty(),
            session::answer_tokens(
                AnswerView::Rows { columns: session.columns, rows: session.rows },
            ),
        ).len() <= MAX_MESSAGE,
    ensures
        ({
            let (answer, event) = session::answer_for(session, sql, None);
            let tokens = session::answer_tokens(answer);
            &&& event == EventView::Selected(sql)
            &&& received(session::tokens_message(tokens)) matches Ok(message)
            &&& client::query_answered(message) == Ok::<QueryResultView, Fault>(
                QueryResultView {
                    columns: cut_names(session.columns),
                    rows: session.rows,
                    rows_affected: session.rows.len() as u64,
                },
            )
        }),
{
    lemma_table_is_read(session.columns, session.rows);
}

/// The verb of what a send writes is INSERT.
proof fn lemma_verb_of_insert(table: Seq<char>, column: Seq<char>, bytes: Seq<u8>)
    ensures
        session::verb_of(insert::insert_statement(table, column, bytes)) == "INSERT"@,
{
    reveal_strlit("INSERT INTO ");
    reveal_strlit("INSERT");
    let sql = insert::insert_statement(table, column, bytes);
    assert(sql[0] == 'I' && sql[1] == 'N' && sql[2] == 'S' && sql[3] == 'E' && sql[4] == 'R'
        && sql[5] == 'T' && sql[6] == ' ');
    assert(text::left_trimmed(sql) == sql);
    assert(sql.skip(1).skip(1) =~= sql.skip(2));
    assert(sql.skip(2).skip(1) =~= sql.skip(3));
    assert(sql.skip(3).skip(1) =~= sql.skip(4));
    assert(sql.skip(4).skip(1) =~= sql.skip(5));
    assert(sql.skip(5).skip(1) =~= sql.skip(6));
    assert(session::leading_word(sql.skip(6)) =~= Seq::empty());
    assert(session::leading_word(sql.skip(5)) =~= seq!['T']);
    assert(session::leading_word(sql.skip(4)) =~= seq!['R', 'T']);
    assert(session::leading_word(sql.skip(3)) =~= seq!['E', 'R', 'T']);
    assert(session::leading_word(sql.skip(2)) =~= seq!['S', 'E', 'R', 'T']);
    assert(session::leading_word(sql.skip(1)) =~= seq!['N', 'S', 'E', 'R', 'T']);
    assert(session::leading_word(sql) =~= seq!['I', 'N', 'S', 'E', 'R', 'T']);
    assert("INSERT"@ =~= seq!['I', 'N', 'S', 'E', 'R', 'T']);
}

/// What a send inserts is what the far end takes, whatever the bytes are and
/// whatever the table and the column are called: the session reads the batch,
/// takes the statement apart and reports the Stream, and its client reads that
/// one row was touched. The batch is one message.
pub proof fn lemma_insert_arrives(
    session: SessionView,
    table: Seq<char>,
    column: Seq<char>,
    bytes: Seq<u8>,
    packet_size: u16,
)
    requires
        batch::batch_bytes(insert::insert_statement(table, column, bytes)).len() <= MAX_MESSAGE,
    ensures
        ({
            let sql = insert::insert_statement(table, column, bytes);
            let body = batch::batch_bytes(sql);
            let tokens = session::answer_tokens(AnswerView::Complete(1));
            let answer = token::tokens_bytes(Seq::empty(), tokens);
            &&& received(wire::message_bytes(SQL_BATCH, body, packet_size)) == Ok::<
                Option<(u8, Seq<u8>)>,
                Fault,
            >(Some((SQL_BATCH, body)))
            &&& session::batch_run(Some((SQL_BATCH, body))) == Ok::<Option<Seq<char>>, Fault>(
                Some(sql),
            )
            &&& session::answer_for(session, sql, None) == (
                AnswerView::Complete(1),
                EventView::Inserted(
                    ArrivedView { origin_uri: session::origin(session, table, column), bytes },
                ),
            )
            &&& received(session::tokens_message(tokens)) == Ok::<Option<(u8, Seq<u8>)>, Fault>(
                Some((TABULAR_RESULT, answer)),
            )
            &&& client::execute_answered(Some((TABULAR_RESULT, answer))) == Ok::<u64, Fault>(1)
        }),
{
    let sql = insert::insert_statement(table, column, bytes);
    lemma_received(SQL_BATCH, batch::batch_bytes(sql), packet_size);
    batch::lemma_batch_reads_back(sql);
    lemma_verb_of_insert(table, column, bytes);
    reveal_strlit("SELECT");
    reveal_strlit("INSERT");
    assert("SELECT"@[0] != "INSERT"@[0]);
    insert::lemma_insert_reads_back(table, column, bytes);
    lemma_count_is_read(1);
}

// Streams.

/// What the loopback pair sends is what its far end takes: the payload goes
/// to the configured server and database, and the session that is sent it
/// reports it whole, from the table and the column that the pair agrees on.
pub proof fn lemma_loopback_returns_the_payload(
    transport: TransportView,
    session: SessionView,
    bytes: Seq<u8>,
)
    ensures
        ({
            let sql = insert::insert_statement("probe"@, "payload"@, bytes);
            &&& crate::outgoing_to(transport, LOOPBACK_TARGET@, bytes) == Ok::<OutgoingView, Fault>(
                OutgoingView { server: transport.server, database: transport.database, sql },
            )
            &&& session::answer_for(session, sql, None).1 == EventView::Inserted(
                ArrivedView {
                    origin_uri: session::origin(session, "probe"@, "payload"@),
                    bytes,
                },
            )
        }),
{
    reveal_strlit("probe/payload");
    reveal_strlit("probe");
    reveal_strlit("payload");
    assert("probe/payload"@ =~= target::two_segments("probe"@, "payload"@));
    target::lemma_table_and_column_are_configured(
        transport.server,
        transport.database,
        "probe"@,
        "payload"@,
    );
    lemma_verb_of_insert("probe"@, "payload"@, bytes);
    reveal_strlit("SELECT");
    reveal_strlit("INSERT");
    assert("SELECT"@[0] != "INSERT"@[0]);
    insert::lemma_insert_reads_back("probe"@, "payload"@, bytes);
}

/// The text that a column keeps of a Stream: text as it is, anything else as
/// the binary literal.
pub open spec fn kept(bytes: Seq<u8>) -> Seq<char> {
    if binary::is_text_bytes(bytes) {
        vstd::utf8::decode_utf8(bytes)
    } else {
        binary::literal_of(bytes)
    }
}

/// A Stream that a row keeps in its last column arrives as the bytes it was.
/// Text that happens to be a binary literal is read as the bytes it names, so
/// it does not.
pub proof fn lemma_kept_stream_arrives(
    transport: TransportView,
    row: Seq<Option<Seq<char>>>,
    index: int,
    bytes: Seq<u8>,
)
    requires
        row.len() > 0,
        row.last() == Some(kept(bytes)),
        binary::is_text_bytes(bytes) ==> !binary::is_literal(vstd::utf8::decode_utf8(bytes)),
    ensures
        crate::stream_of(transport, row, index).bytes == bytes,
{
    if binary::is_text_bytes(bytes) {
        binary::lemma_text_reads_back(bytes);
    } else {
        binary::lemma_literal_reads_back(bytes);
    }
}

} // verus!
