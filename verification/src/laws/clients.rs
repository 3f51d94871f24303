//! What a client makes of a server's answers.

use vstd::prelude::*;

use crate::client;
use crate::client::{ClientView, QueryResultView};
use crate::column::ColumnView;
use crate::error::Fault;
use crate::laws::numbers;
use crate::laws::tokens;
use crate::laws::values::joined;
use crate::login;
use crate::login::LoginView;
use crate::number;
use crate::prelogin;
use crate::token;
use crate::token::{MessageView, TokenView};
use crate::wire;

verus! {

/// The failure of an error the server answered.
pub open spec fn answered_error(message: MessageView, retryable: bool) -> Fault {
    Fault {
        message: "the server answered "@ + number::decimal(message.number as int) + ": "@
            + message.text,
        retryable,
    }
}

/// An error the server answered is worth another attempt where its number is
/// one of sixteen, and where it is any other it is not; what it says is its
/// number and its text.
pub proof fn lemma_an_error_is_judged_by_its_number(message: MessageView)
    ensures
        client::sql_fault(message) == answered_error(
            message,
            seq![
                -2int,
                233,
                1204,
                1205,
                1222,
                8645,
                8651,
                10053,
                10054,
                10060,
                40197,
                40501,
                40613,
                49918,
                49919,
                49920,
            ].contains(message.number as int),
        ),
{
    let table = seq![
        -2int,
        233,
        1204,
        1205,
        1222,
        8645,
        8651,
        10053,
        10054,
        10060,
        40197,
        40501,
        40613,
        49918,
        49919,
        49920,
    ];
    let n = message.number as int;
    assert(table[0] == -2 && table[1] == 233 && table[2] == 1204 && table[3] == 1205 && table[4]
        == 1222 && table[5] == 8645 && table[6] == 8651 && table[7] == 10053 && table[8] == 10054
        && table[9] == 10060 && table[10] == 40197 && table[11] == 40501 && table[12] == 40613
        && table[13] == 49918 && table[14] == 49919 && table[15] == 49920);
    if client::is_passing_trouble(message.number) {
        assert(table.contains(n));
    }
}

/// A server answers with a token stream and nothing else.
pub proof fn lemma_a_server_answers_with_tokens(kind: u8, body: Seq<u8>)
    ensures
        client::server_answer(Some((0x04u8, body))) == Ok::<Seq<u8>, Fault>(body),
        kind != 0x04 ==> client::server_answer(Some((kind, body))) == Err::<Seq<u8>, Fault>(
            Fault {
                message: "packet type "@ + seq![
                    '0',
                    'x',
                    "0123456789abcdef"@[kind as int / 16],
                    "0123456789abcdef"@[kind as int % 16],
                ] + " is not a server's answer"@,
                retryable: false,
            },
        ),
        client::server_answer(None) == Err::<Seq<u8>, Fault>(
            Fault { message: "the server closed mid-conversation"@, retryable: false },
        ),
{
    numbers::lemma_a_byte_is_named(kind);
}

/// What is no server's answer fails every step of a conversation alike.
pub proof fn lemma_what_is_no_answer_fails(
    message: Option<(u8, Seq<u8>)>,
    fault: Fault,
    database: Seq<char>,
    login: LoginView,
    process_id: u32,
)
    requires
        client::server_answer(message) == Err::<Seq<u8>, Fault>(fault),
    ensures
        client::login_following(message, database, login, process_id) == Err::<Seq<u8>, Fault>(
            fault,
        ),
        client::logged_in(message) == Err::<ClientView, Fault>(fault),
        client::query_answered(message) == Err::<QueryResultView, Fault>(fault),
        client::execute_answered(message) == Err::<u64, Fault>(fault),
{
}

/// A client opens with what it says by default.
pub proof fn lemma_a_client_opens()
    ensures
        client::opening() == wire::message_bytes(
            0x12,
            prelogin::prelogin_bytes(prelogin::default_prelogin()),
            4096,
        ),
{
}

/// The login follows where the server does not encrypt or encrypts only the
/// login, and otherwise the client fails, whatever else the server says.
pub proof fn lemma_a_login_follows_without_encryption(
    body: Seq<u8>,
    database: Seq<char>,
    login: LoginView,
    process_id: u32,
)
    ensures
        match prelogin::options_read(body, body, prelogin::default_prelogin()) {
            Ok(told) => client::login_following(
                Some((0x04u8, body)),
                database,
                login,
                process_id,
            ) == (if told.encryption == 0 || told.encryption == 2 {
                Ok::<Seq<u8>, Fault>(
                    wire::message_bytes(
                        0x10,
                        login::login7_bytes(login::login_as_xmip(login, database), process_id),
                        4096,
                    ),
                )
            } else {
                Err(
                    Fault {
                        message:
                            "the server requires encryption, and TLS is `xmip-core-tls`'s (ADR-0033)"@,
                        retryable: false,
                    },
                )
            }),
            Err(fault) => client::login_following(
                Some((0x04u8, body)),
                database,
                login,
                process_id,
            ) == Err::<Seq<u8>, Fault>(fault),
        },
{
}

/// The first error among tokens is the one ahead of which there is none.
pub proof fn lemma_the_first_error(tokens: Seq<TokenView>, i: int)
    ensures
        0 <= i < tokens.len() && (forall|j: int| 0 <= j < i ==> !(#[trigger] tokens[j] is Error))
            ==> (tokens[i] matches TokenView::Error(message) ==> client::first_error(tokens)
            == Some(message)),
        (forall|j: int| 0 <= j < tokens.len() ==> !(#[trigger] tokens[j] is Error))
            <==> client::first_error(tokens) is None,
    decreases tokens.len(),
{
    if tokens.len() > 0 {
        let others = tokens.skip(1);
        lemma_the_first_error(others, i - 1);
        assert(forall|j: int| 0 <= j < others.len() ==> others[j] == #[trigger] tokens[j + 1]);
        assert forall|j: int| 0 < j < tokens.len() implies #[trigger] tokens[j] == others[j
            - 1] by {}
        if !(tokens[0] is Error) {
            if client::first_error(tokens) is None {
                assert forall|j: int| 0 <= j < tokens.len() implies !(
                #[trigger] tokens[j] is Error) by {
                    if j > 0 {
                        assert(!(others[j - 1] is Error));
                    }
                }
            }
        }
    }
}

/// The last error among tokens is the one behind which there is none.
pub proof fn lemma_the_last_error(tokens: Seq<TokenView>, i: int)
    ensures
        0 <= i < tokens.len() && (forall|j: int|
            i < j < tokens.len() ==> !(#[trigger] tokens[j] is Error)) ==> (
        tokens[i] matches TokenView::Error(message) ==> client::last_error(tokens) == Some(
            message,
        )),
        (forall|j: int| 0 <= j < tokens.len() ==> !(#[trigger] tokens[j] is Error))
            <==> client::last_error(tokens) is None,
    decreases tokens.len(),
{
    if tokens.len() > 0 {
        let others = tokens.drop_last();
        lemma_the_last_error(others, i);
        assert(forall|j: int| 0 <= j < others.len() ==> #[trigger] others[j] == tokens[j]);
        let last = tokens[tokens.len() - 1];
        if !(last is Error) {
            if client::last_error(tokens) is None {
                assert forall|j: int| 0 <= j < tokens.len() implies !(
                #[trigger] tokens[j] is Error) by {
                    if j < others.len() {
                        assert(!(others[j] is Error));
                    }
                }
            }
        }
    }
}

/// A login answered makes a client where the answer is read to its end, holds
/// no error and acknowledges the login; and where it does not, the client
/// fails: by the first error, else by what cannot be read, else because
/// nothing acknowledges the login.
pub proof fn lemma_a_login_answered(body: Seq<u8>)
    ensures
        ({
            let (tokens, broken) = token::tokens_in(Seq::empty(), body);
            let made = client::logged_in(Some((0x04u8, body)));
            match client::first_error(tokens) {
                Some(message) => made == Err::<ClientView, Fault>(client::sql_fault(message)),
                None => match broken {
                    Some(fault) => made == Err::<ClientView, Fault>(fault),
                    None => match client::program_in(tokens) {
                        Some(program) => made == Ok::<ClientView, Fault>(
                            ClientView { packet_size: client::size_in(tokens), program },
                        ),
                        None => made == Err::<ClientView, Fault>(
                            Fault {
                                message: "the server did not acknowledge the login"@,
                                retryable: false,
                            },
                        ),
                    },
                },
            }
        }),
{
}

/// What the server calls itself is what its last acknowledgement says,
/// however long that is.
pub proof fn lemma_the_last_acknowledgement_names_the_program(
    tokens: Seq<TokenView>,
    version: u32,
    program: Seq<char>,
    other: TokenView,
)
    requires
        !(other is LoginAck),
    ensures
        client::program_in(Seq::empty()) is None,
        client::program_in(tokens.push(TokenView::LoginAck { version, program })) == Some(program),
        client::program_in(tokens.push(other)) == client::program_in(tokens),
{
    assert(tokens.push(other).drop_last() =~= tokens);
}

/// The packet size is what the last change of it says that says a number,
/// held to what the protocol allows, and 4096 where there is none; no other
/// token changes it.
pub proof fn lemma_the_last_change_settles_the_packet_size(
    tokens: Seq<TokenView>,
    new: Seq<char>,
    was: Seq<char>,
    other: TokenView,
)
    requires
        other matches TokenView::EnvChange { kind, .. } ==> kind != 4,
    ensures
        client::size_in(Seq::empty()) == 4096,
        client::size_in(tokens.push(TokenView::EnvChange { kind: 4, new, old: was })) == (
        match number::u16_in(new) {
            Some(size) => if size < 512 {
                512
            } else if size > 32767 {
                32767
            } else {
                size
            },
            None => client::size_in(tokens),
        }),
        client::size_in(tokens.push(other)) == client::size_in(tokens),
{
    let change = TokenView::EnvChange { kind: 4, new, old: was };
    assert(tokens.push(change).drop_last() =~= tokens);
    assert(tokens.push(other).drop_last() =~= tokens);
}

/// An answer comes to what its tokens say where it is read to its end and
/// holds no error; and otherwise the client fails: by what cannot be read,
/// else by the last error. A statement's count is the answer's.
pub proof fn lemma_a_query_answered(body: Seq<u8>)
    ensures
        ({
            let (tokens, broken) = token::tokens_in(Seq::empty(), body);
            let query = client::query_answered(Some((0x04u8, body)));
            let count = client::execute_answered(Some((0x04u8, body)));
            match broken {
                Some(fault) => {
                    &&& query == Err::<QueryResultView, Fault>(fault)
                    &&& count == Err::<u64, Fault>(fault)
                },
                None => match client::last_error(tokens) {
                    Some(message) => {
                        &&& query == Err::<QueryResultView, Fault>(client::sql_fault(message))
                        &&& count == Err::<u64, Fault>(client::sql_fault(message))
                    },
                    None => {
                        &&& query == Ok::<QueryResultView, Fault>(client::result_in(tokens))
                        &&& count == Ok::<u64, Fault>(client::result_in(tokens).rows_affected)
                    },
                },
            }
        }),
{
}

/// Each token adds to an answer what it says: a row itself, behind those
/// before it; a declaration its columns' names, in place of any before; a
/// DONE of any form that counts its rows; and nothing else adds anything.
pub proof fn lemma_each_token_adds_to_the_answer(
    tokens: Seq<TokenView>,
    values: Seq<Option<Seq<char>>>,
    columns: Seq<ColumnView>,
    kind: u8,
    status: u16,
    rows: u64,
    other: TokenView,
)
    requires
        kind == 0xFD || kind == 0xFE || kind == 0xFF,
        other is EnvChange || other is Info || other is Error || other is LoginAck
            || other is ReturnStatus || other is Order,
    ensures
        ({
            let so_far = client::result_in(tokens);
            &&& client::result_in(tokens.push(TokenView::Row(values))) == (QueryResultView {
                rows: so_far.rows.push(values),
                ..so_far
            })
            &&& client::result_in(tokens.push(TokenView::ColMetadata(columns))) == (
            QueryResultView {
                columns: Seq::new(columns.len(), |i: int| columns[i].name),
                ..so_far
            })
            &&& client::result_in(tokens.push(tokens::done_of(kind, status, rows))) == (
            if status / 16 % 2 == 1 {
                QueryResultView { rows_affected: rows, ..so_far }
            } else {
                so_far
            })
            &&& client::result_in(tokens.push(other)) == so_far
        }),
        client::result_in(Seq::empty()) == (QueryResultView {
            columns: Seq::empty(),
            rows: Seq::empty(),
            rows_affected: 0,
        }),
{
    assert(tokens.push(TokenView::Row(values)).drop_last() =~= tokens);
    assert(tokens.push(TokenView::ColMetadata(columns)).drop_last() =~= tokens);
    assert(tokens.push(tokens::done_of(kind, status, rows)).drop_last() =~= tokens);
    assert(tokens.push(other).drop_last() =~= tokens);
    assert(client::names(columns) =~= Seq::new(columns.len(), |i: int| columns[i].name));
}

/// A statement that a server answers with one DONE, of any form and naming
/// any command, touched the rows that DONE counts, and none where it counts
/// none.
pub proof fn lemma_one_done_counts_its_rows(kind: u8, status: u16, command: u16, rows: u64)
    requires
        kind == 0xFD || kind == 0xFE || kind == 0xFF,
    ensures
        client::execute_answered(
            Some(
                (
                    0x04u8,
                    seq![kind] + wire::le16(status) + wire::le16(command) + wire::le64(rows),
                ),
            ),
        ) == Ok::<u64, Fault>(
            if status / 16 % 2 == 1 {
                rows
            } else {
                0
            },
        ),
{
    let body = seq![kind] + wire::le16(status) + wire::le16(command) + wire::le64(rows);
    let done = tokens::done_of(kind, status, rows);
    let none = Seq::<ColumnView>::empty();
    tokens::lemma_any_command_is_read_past(none, kind, status, command, rows, Seq::empty());
    assert(body + Seq::empty() =~= body);
    lemma_one_token_is_the_payload(body, done);
    lemma_a_query_answered(body);
    lemma_the_last_error(seq![done], 0);
    lemma_each_token_adds_to_the_answer(
        Seq::empty(),
        Seq::empty(),
        Seq::empty(),
        kind,
        status,
        rows,
        TokenView::ReturnStatus(0),
    );
    assert(Seq::<TokenView>::empty().push(done) =~= seq![done]);
}

/// A ROW for each of `rows`.
spec fn rows_told(rows: Seq<Seq<Option<Seq<char>>>>) -> Seq<TokenView> {
    Seq::new(rows.len(), |i: int| TokenView::Row(rows[i]))
}

/// Rows and what follows them are read by the columns in force.
proof fn lemma_rows_in_turn(
    columns: Seq<ColumnView>,
    parts: Seq<Seq<u8>>,
    rows: Seq<Seq<Option<Seq<char>>>>,
    end: Seq<u8>,
    last: TokenView,
)
    requires
        parts.len() == rows.len(),
        !(last is ColMetadata),
        forall|i: int, rest: Seq<u8>|
            0 <= i < rows.len() ==> #[trigger] token::next_token(columns, parts[i] + rest) == (
                Ok::<Option<TokenView>, Fault>(Some(TokenView::Row(rows[i]))),
                rest,
            ),
        token::next_token(columns, end) == (
            Ok::<Option<TokenView>, Fault>(Some(last)),
            Seq::<u8>::empty(),
        ),
    ensures
        token::tokens_in(columns, joined(parts) + end) == (
            rows_told(rows).push(last),
            None::<Fault>,
        ),
    decreases parts.len(),
{
    let told = rows_told(rows).push(last);
    if parts.len() == 0 {
        assert(joined(parts) + end =~= end);
        tokens::lemma_a_payload_is_its_tokens(columns, end);
        tokens::lemma_a_payload_is_its_tokens(columns, Seq::empty());
        assert(told =~= seq![last] + Seq::<TokenView>::empty());
    } else {
        let others = parts.skip(1);
        let fewer = rows.skip(1);
        let rest = joined(others) + end;
        assert(joined(parts) + end =~= parts[0] + rest);
        assert(token::next_token(columns, parts[0] + rest) == (
            Ok::<Option<TokenView>, Fault>(Some(TokenView::Row(rows[0]))),
            rest,
        ));
        assert forall|i: int, after: Seq<u8>|
            0 <= i < fewer.len() implies #[trigger] token::next_token(columns, others[i] + after)
            == (Ok::<Option<TokenView>, Fault>(Some(TokenView::Row(fewer[i]))), after) by {
            assert(token::next_token(columns, parts[i + 1] + after) == (
                Ok::<Option<TokenView>, Fault>(Some(TokenView::Row(rows[i + 1]))),
                after,
            ));
        }
        lemma_rows_in_turn(columns, others, fewer, end, last);
        tokens::lemma_a_payload_is_its_tokens(columns, parts[0] + rest);
        assert(told =~= seq![TokenView::Row(rows[0])] + rows_told(fewer).push(last));
    }
}

/// A declaration and the rows behind it come to its names and those rows.
proof fn lemma_rows_come_to(declared: Seq<ColumnView>, rows: Seq<Seq<Option<Seq<char>>>>)
    ensures
        client::result_in(seq![TokenView::ColMetadata(declared)] + rows_told(rows)) == (
        QueryResultView {
            columns: Seq::new(declared.len(), |i: int| declared[i].name),
            rows,
            rows_affected: 0,
        }),
    decreases rows.len(),
{
    let first = TokenView::ColMetadata(declared);
    let all = seq![first] + rows_told(rows);
    let empty = Seq::<TokenView>::empty();
    if rows.len() == 0 {
        assert(all =~= empty.push(first));
        lemma_each_token_adds_to_the_answer(
            empty,
            Seq::empty(),
            declared,
            0xFD,
            0,
            0,
            TokenView::ReturnStatus(0),
        );
        assert(rows =~= Seq::empty());
    } else {
        let fewer = rows.drop_last();
        let before = seq![first] + rows_told(fewer);
        lemma_rows_come_to(declared, fewer);
        assert(all =~= before.push(TokenView::Row(rows.last())));
        lemma_each_token_adds_to_the_answer(
            before,
            rows.last(),
            declared,
            0xFD,
            0,
            0,
            TokenView::ReturnStatus(0),
        );
        assert(fewer.push(rows.last()) =~= rows);
    }
}

/// A query that a server answers with a declaration, rows and a DONE comes
/// back with the names declared, every row in order and what the DONE counts,
/// whoever wrote the answer: however the columns were declared, a collation
/// and flags of any kind among that, however the cells of a row were written,
/// and whatever command the DONE names.
pub proof fn lemma_a_query_comes_back_with_its_rows(
    metadata: Seq<u8>,
    declared: Seq<ColumnView>,
    parts: Seq<Seq<u8>>,
    rows: Seq<Seq<Option<Seq<char>>>>,
    kind: u8,
    status: u16,
    command: u16,
    count: u64,
)
    requires
        kind == 0xFD || kind == 0xFE || kind == 0xFF,
        parts.len() == rows.len(),
        forall|rest: Seq<u8>| #[trigger]
            token::next_token(Seq::empty(), metadata + rest) == (
                Ok::<Option<TokenView>, Fault>(Some(TokenView::ColMetadata(declared))),
                rest,
            ),
        forall|i: int, rest: Seq<u8>|
            0 <= i < rows.len() ==> #[trigger] token::next_token(declared, parts[i] + rest) == (
                Ok::<Option<TokenView>, Fault>(Some(TokenView::Row(rows[i]))),
                rest,
            ),
    ensures
        client::query_answered(
            Some(
                (
                    0x04u8,
                    metadata + (joined(parts) + (seq![kind] + wire::le16(status) + wire::le16(
                        command,
                    ) + wire::le64(count))),
                ),
            ),
        ) == Ok::<QueryResultView, Fault>(
            QueryResultView {
                columns: Seq::new(declared.len(), |i: int| declared[i].name),
                rows,
                rows_affected: if status / 16 % 2 == 1 {
                    count
                } else {
                    0
                },
            },
        ),
{
    let end = seq![kind] + wire::le16(status) + wire::le16(command) + wire::le64(count);
    let last = tokens::done_of(kind, status, count);
    let first = TokenView::ColMetadata(declared);
    let behind = joined(parts) + end;
    let body = metadata + behind;
    tokens::lemma_any_command_is_read_past(declared, kind, status, command, count, Seq::empty());
    assert(end + Seq::empty() =~= end);
    lemma_rows_in_turn(declared, parts, rows, end, last);
    assert(token::next_token(Seq::empty(), metadata + behind) == (
        Ok::<Option<TokenView>, Fault>(Some(first)),
        behind,
    ));
    tokens::lemma_a_payload_is_its_tokens(Seq::empty(), body);
    let before = seq![first] + rows_told(rows);
    let all = before.push(last);
    assert(all =~= seq![first] + rows_told(rows).push(last));
    lemma_rows_come_to(declared, rows);
    lemma_each_token_adds_to_the_answer(
        before,
        Seq::empty(),
        declared,
        kind,
        status,
        count,
        TokenView::ReturnStatus(0),
    );
    assert forall|j: int| 0 <= j < all.len() implies !(#[trigger] all[j] is Error) by {
        if 0 < j < all.len() - 1 {
            assert(all[j] == rows_told(rows)[j - 1]);
        }
    }
    lemma_the_last_error(all, 0);
    lemma_a_query_answered(body);
}

/// A payload of one token is that token.
proof fn lemma_one_token_is_the_payload(body: Seq<u8>, read: TokenView)
    requires
        !(read is ColMetadata),
        token::next_token(Seq::empty(), body) == (
            Ok::<Option<TokenView>, Fault>(Some(read)),
            Seq::<u8>::empty(),
        ),
    ensures
        token::tokens_in(Seq::empty(), body) == (seq![read], None::<Fault>),
{
    let none = Seq::<ColumnView>::empty();
    tokens::lemma_a_payload_is_its_tokens(none, body);
    tokens::lemma_a_payload_is_its_tokens(none, Seq::empty());
    assert(seq![read] + Seq::<TokenView>::empty() =~= seq![read]);
}

/// Quoting goes character by character: the closer is doubled, and any other
/// character stands as it is.
pub proof fn lemma_quoting_goes_by_character(c: char, rest: Seq<char>, closer: char)
    ensures
        client::doubled(Seq::empty(), closer) == Seq::<char>::empty(),
        c == closer ==> client::doubled(seq![c] + rest, closer) == seq![closer, closer]
            + client::doubled(rest, closer),
        c != closer ==> client::doubled(seq![c] + rest, closer) == seq![c] + client::doubled(
            rest,
            closer,
        ),
        client::quoted_literal(rest) == seq!['N', '\''] + client::doubled(rest, '\'') + seq!['\''],
        client::quoted_identifier(rest) == seq!['['] + client::doubled(rest, ']') + seq![']'],
{
    assert((seq![c] + rest).skip(1) =~= rest);
}

/// A result without anything has no columns, no rows and no count.
pub proof fn lemma_no_result_is_nothing()
    ensures
        client::no_result() == (QueryResultView {
            columns: Seq::empty(),
            rows: Seq::empty(),
            rows_affected: 0,
        }),
{
}

} // verus!
