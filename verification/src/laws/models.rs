//! What a value says is what its fields hold, all of it and nothing else.

use vstd::prelude::*;

use crate::arrived::Arrived;
use crate::client::{Client, QueryResult};
use crate::column::Column;
use crate::error;
use crate::error::{Fault, TransportError};
use crate::login::{Login, Login7};
use crate::prelogin::Prelogin;
use crate::session;
use crate::session::{Answer, AnswerView, Event, EventView, LoginAnswer};
use crate::target::Target;
use crate::token;
use crate::token::{Message, Token, TokenView};
use crate::Outgoing;

verus! {

/// A failure says its words and whether another attempt is worth anything.
pub proof fn lemma_a_failure_says_its_words(failure: TransportError, said: Seq<char>)
    ensures
        failure@ == (Fault { message: failure.message@, retryable: failure.retryable }),
        error::fault(said) == (Fault { message: said, retryable: false }),
{
}

/// An outcome says its value or its failure.
pub proof fn lemma_an_outcome_says_its_value<T: DeepView>(value: T, failure: TransportError)
    ensures
        error::outcome(Ok::<T, TransportError>(value)) == Ok::<T::V, Fault>(value.deep_view()),
        error::outcome(Err::<T, TransportError>(failure)) == Err::<T::V, Fault>(
            Fault { message: failure.message@, retryable: failure.retryable },
        ),
{
}

/// A Stream says where it came from and its bytes.
pub proof fn lemma_a_stream_says_its_bytes(stream: Arrived, streams: Seq<Arrived>, i: int)
    ensures
        stream@.origin_uri == stream.origin_uri@,
        stream@.bytes == stream.bytes@,
        stream.deep_view() == stream@,
        crate::arrived_view(streams).len() == streams.len(),
        0 <= i < streams.len() ==> crate::arrived_view(streams)[i] == streams[i]@,
{
}

/// A row says each of its values, text or null.
pub proof fn lemma_a_row_says_its_values(values: Seq<Option<String>>, i: int)
    ensures
        token::row_view(values).len() == values.len(),
        0 <= i < values.len() ==> token::row_view(values)[i] == (match values[i] {
            Some(text) => Some(text@),
            None => None,
        }),
{
}

/// A result says the names of its columns, its rows and their count, and a
/// client what it knows.
pub proof fn lemma_a_result_says_its_rows(result: QueryResult, client: Client, i: int)
    ensures
        result@.columns.len() == result.columns@.len(),
        0 <= i < result.columns@.len() ==> result@.columns[i] == result.columns@[i]@,
        result@.rows.len() == result.rows@.len(),
        0 <= i < result.rows@.len() ==> result@.rows[i] == token::row_view(result.rows@[i]@),
        result@.rows_affected == result.rows_affected,
        result.deep_view() == result@,
        client.deep_view() == client@,
{
}

/// A column says its name and its type.
pub proof fn lemma_a_column_says_its_type(column: Column, columns: Seq<Column>, i: int)
    ensures
        column@.name == column.name@,
        column@.kind == column.kind,
        column.kind.deep_view() == column.kind,
        token::columns_view(columns).len() == columns.len(),
        column.deep_view() == column@,
        0 <= i < columns.len() ==> token::columns_view(columns)[i] == columns[i]@,
{
}

/// A message says everything it holds.
pub proof fn lemma_a_message_says_its_text(message: Message)
    ensures
        message@.number == message.number,
        message@.state == message.state,
        message@.class == message.class,
        message@.text == message.text@,
        message@.server == message.server@,
        message@.procedure == message.procedure@,
        message@.line == message.line,
        message.deep_view() == message@,
{
}

/// A token says everything it holds.
pub proof fn lemma_a_token_says_what_it_holds(one: Token, tokens: Seq<Token>, i: int)
    ensures
        one@ == (match one {
            Token::EnvChange { kind, new, old: was } => TokenView::EnvChange {
                kind,
                new: new@,
                old: was@,
            },
            Token::Info(message) => TokenView::Info(message@),
            Token::Error(message) => TokenView::Error(message@),
            Token::LoginAck { version, program } => TokenView::LoginAck {
                version,
                program: program@,
            },
            Token::ColMetadata(columns) => TokenView::ColMetadata(token::columns_view(columns@)),
            Token::Row(values) => TokenView::Row(token::row_view(values@)),
            Token::Done { status, rows } => TokenView::Done { status, rows },
            Token::DoneProc { status, rows } => TokenView::DoneProc { status, rows },
            Token::DoneInProc { status, rows } => TokenView::DoneInProc { status, rows },
            Token::ReturnStatus(status) => TokenView::ReturnStatus(status),
            Token::Order(numbers) => TokenView::Order(numbers@),
        }),
        one.deep_view() == one@,
        token::tokens_view(tokens).len() == tokens.len(),
        0 <= i < tokens.len() ==> token::tokens_view(tokens)[i] == tokens[i]@,
{
}

/// A login says everything it holds.
pub proof fn lemma_a_login_says_who_logs_in(login: Login, whole: Login7)
    ensures
        login@.user == login.user@,
        login@.password == login.password@,
        whole@.login == whole.login@,
        whole@.database == whole.database@,
        whole@.hostname == whole.hostname@,
        whole@.app_name == whole.app_name@,
        whole@.server_name == whole.server_name@,
        whole@.library == whole.library@,
        whole@.language == whole.language@,
        whole@.packet_size == whole.packet_size,
        whole.deep_view() == whole@,
{
}

/// A pre-login says everything it holds.
pub proof fn lemma_a_prelogin_says_what_it_holds(said: Prelogin)
    ensures
        said@.version == said.version@,
        said@.encryption == said.encryption,
        said@.instance == said.instance@,
        said@.thread_id == said.thread_id,
        said@.mars == said.mars,
        said.deep_view() == said@,
{
}

/// A target and what goes out to one say everything they hold.
pub proof fn lemma_a_target_says_where(place: Target, out: Outgoing)
    ensures
        place@.server == place.server@,
        place@.database == place.database@,
        place@.table == place.table@,
        place@.column == place.column@,
        place.deep_view() == place@,
        out@.server == out.server@,
        out@.database == out.database@,
        out@.sql == out.sql@,
        out.deep_view() == out@,
{
}

/// An event says what the client did.
pub proof fn lemma_an_event_says_what_was_done(event: Event)
    ensures
        event@ == (match event {
            Event::Selected(sql) => EventView::Selected(sql@),
            Event::Inserted(stream) => EventView::Inserted(stream@),
            Event::Executed(sql) => EventView::Executed(sql@),
        }),
{
}

/// An answer says everything it holds.
pub proof fn lemma_an_answer_says_what_it_holds(answer: Answer, told: LoginAnswer, i: int)
    ensures
        match answer {
            Answer::Rows { columns, rows } => {
                &&& answer@ matches AnswerView::Rows { columns: names, rows: values }
                &&& names.len() == columns@.len() && values.len() == rows@.len()
                &&& 0 <= i < columns@.len() ==> names[i] == columns@[i]@
                &&& 0 <= i < rows@.len() ==> values[i] == token::row_view(rows@[i]@)
            },
            Answer::Complete(rows) => answer@ == AnswerView::Complete(rows),
            Answer::Error { number, message } => answer@ == (AnswerView::Error {
                number,
                message: message@,
            }),
        },
        answer.deep_view() == answer@,
        told.deep_view() == told@,
        told@.reply == told.reply@,
        told@.session == (match told.session {
            Ok(session) => Ok(session@),
            Err(failure) => Err(failure@),
        }),
{
}

/// A table given to a session is its names and its rows' values, all of them.
pub proof fn lemma_a_table_is_all_its_values(
    names: Seq<&str>,
    rows: Seq<&[Option<&str>]>,
    i: int,
    j: int,
)
    ensures
        session::names_view(names).len() == names.len(),
        0 <= i < names.len() ==> session::names_view(names)[i] == names[i]@,
        session::table_view(rows).len() == rows.len(),
        0 <= i < rows.len() ==> session::table_view(rows)[i].len() == rows[i]@.len() && (0 <= j
            < rows[i]@.len() ==> session::table_view(rows)[i][j] == (match rows[i]@[j] {
            Some(text) => Some(text@),
            None => None,
        })),
{
}

} // verus!
