//! What a session answers its client, and what it reports of it.

use vstd::prelude::*;

use crate::arrived::ArrivedView;
use crate::batch;
use crate::column::{ColumnType, ColumnView};
use crate::error::Fault;
use crate::insert;
use crate::laws::numbers;
use crate::laws::texts;
use crate::login;
use crate::login::LoginView;
use crate::number;
use crate::prelogin;
use crate::prelogin::PreloginView;
use crate::session;
use crate::session::{AnswerView, EventView, LoginAnswerView, SessionView};
use crate::text;
use crate::token;
use crate::token::{MessageView, TokenView};
use crate::wire;

verus! {

/// The failure of a packet of another type than the one due.
pub open spec fn not_due(got: u8, due: u8) -> Fault {
    Fault {
        message: "packet type "@ + seq![
            '0',
            'x',
            "0123456789abcdef"@[got as int / 16],
            "0123456789abcdef"@[got as int % 16],
        ] + " where "@ + seq![
            '0',
            'x',
            "0123456789abcdef"@[due as int / 16],
            "0123456789abcdef"@[due as int % 16],
        ] + " was due"@,
        retryable: false,
    }
}

/// A client opens with a pre-login, which is answered with the session's own
/// wherever it can be read; anything else is refused.
pub proof fn lemma_a_prelogin_is_answered(kind: u8, body: Seq<u8>)
    ensures
        match prelogin::options_read(body, body, prelogin::default_prelogin()) {
            Ok(_) => session::prelogin_answered(Some((0x12u8, body))) == Ok::<Seq<u8>, Fault>(
                wire::message_bytes(
                    0x04,
                    prelogin::prelogin_bytes(
                        PreloginView {
                            version: seq![16u8, 0u8, 4u8, 0u8, 0u8, 0u8],
                            encryption: 2,
                            instance: Seq::empty(),
                            thread_id: 0,
                            mars: false,
                        },
                    ),
                    4096,
                ),
            ),
            Err(fault) => session::prelogin_answered(Some((0x12u8, body))) == Err::<
                Seq<u8>,
                Fault,
            >(fault),
        },
        kind != 0x12 ==> session::prelogin_answered(Some((kind, body))) == Err::<Seq<u8>, Fault>(
            not_due(kind, 0x12),
        ),
        session::prelogin_answered(None) == Err::<Seq<u8>, Fault>(
            Fault { message: "the client closed before the login"@, retryable: false },
        ),
{
    numbers::lemma_a_byte_is_named(kind);
    numbers::lemma_a_byte_is_named(0x12);
    assert(session::session_prelogin() =~= PreloginView {
        version: seq![16u8, 0u8, 4u8, 0u8, 0u8, 0u8],
        encryption: 2,
        instance: Seq::empty(),
        thread_id: 0,
        mars: false,
    });
}

/// A message that says `said`, of `number` and severity `class`, from nowhere
/// named.
pub open spec fn says(number: i32, class: u8, said: Seq<char>) -> MessageView {
    MessageView {
        number,
        state: 1,
        class,
        text: said,
        server: Seq::empty(),
        procedure: Seq::empty(),
        line: 1,
    }
}

/// A session's tokens go out as one message.
pub proof fn lemma_tokens_go_out_as_one_message(tokens: Seq<TokenView>)
    ensures
        session::tokens_message(tokens) == wire::message_bytes(
            0x04,
            token::tokens_bytes(Seq::empty(), tokens),
            4096,
        ),
{
}

/// A login that can be read is taken where none is demanded and where it is
/// the one demanded, user and password both; any other is refused, and the
/// client and the session are told of the same user.
pub proof fn lemma_a_login_is_answered(
    body: Seq<u8>,
    expected: Option<LoginView>,
    peer: Seq<char>,
)
    ensures
        match login::login7_read(body) {
            Ok(given) => {
                let taken = match expected {
                    Some(demanded) => demanded.user == given.login.user && demanded.password
                        == given.login.password,
                    None => true,
                };
                let failed = "Login failed for user '"@ + given.login.user + "'."@;
                session::login_answered(Some((0x10u8, body)), expected, peer) == Ok::<
                    LoginAnswerView,
                    Fault,
                >(
                    if taken {
                        LoginAnswerView {
                            reply: session::tokens_message(
                                session::accepting_tokens(given.database),
                            ),
                            session: Ok(
                                SessionView {
                                    peer,
                                    login: given,
                                    columns: Seq::empty(),
                                    rows: Seq::empty(),
                                },
                            ),
                        }
                    } else {
                        LoginAnswerView {
                            reply: session::tokens_message(
                                seq![
                                    TokenView::Error(says(18456, 14, failed)),
                                    TokenView::Done { status: 2, rows: 0 },
                                ],
                            ),
                            session: Err(Fault { message: failed, retryable: false }),
                        }
                    },
                )
            },
            Err(fault) => session::login_answered(Some((0x10u8, body)), expected, peer) == Err::<
                LoginAnswerView,
                Fault,
            >(fault),
        },
{
    if let Ok(given) = login::login7_read(body) {
        if let Some(demanded) = expected {
            if demanded.user == given.login.user && demanded.password == given.login.password {
                assert(demanded =~= given.login);
            }
        }
        let failed = "Login failed for user '"@ + given.login.user + "'."@;
        assert(token::plain_message(18456, 14, failed) =~= says(18456, 14, failed));
    }
}

/// What is not a login is refused where one is due.
pub proof fn lemma_a_login_is_due(
    kind: u8,
    body: Seq<u8>,
    expected: Option<LoginView>,
    peer: Seq<char>,
)
    ensures
        kind != 0x10 ==> session::login_answered(Some((kind, body)), expected, peer) == Err::<
            LoginAnswerView,
            Fault,
        >(not_due(kind, 0x10)),
        session::login_answered(None, expected, peer) == Err::<LoginAnswerView, Fault>(
            Fault { message: "the client closed before the login"@, retryable: false },
        ),
{
    numbers::lemma_a_byte_is_named(kind);
    numbers::lemma_a_byte_is_named(0x10);
}

/// A client whose login is taken is told of its database, of packets of 4096
/// bytes, of TDS 7.4 and of what the session calls itself.
pub proof fn lemma_a_login_taken_is_told(database: Seq<char>)
    ensures
        session::accepting_tokens(database) == seq![
            TokenView::EnvChange { kind: 1, new: database, old: "master"@ },
            TokenView::Info(says(5701, 0, "Changed database context to '"@ + database + "'."@)),
            TokenView::EnvChange {
                kind: 4,
                new: seq!['4', '0', '9', '6'],
                old: seq!['4', '0', '9', '6'],
            },
            TokenView::LoginAck { version: 0x7400_0004, program: "Microsoft SQL Server (xmip)"@ },
            TokenView::Done { status: 0, rows: 0 },
        ],
{
    reveal_strlit("0123456789");
    numbers::lemma_decimal_is_built_digit_by_digit(4, 0);
    numbers::lemma_decimal_is_built_digit_by_digit(0, 4);
    numbers::lemma_decimal_is_built_digit_by_digit(40, 9);
    numbers::lemma_decimal_is_built_digit_by_digit(409, 6);
    assert(number::decimal(4096) =~= seq!['4', '0', '9', '6']);
    let said = "Changed database context to '"@ + database + "'."@;
    assert(token::plain_message(5701, 0, said) =~= says(5701, 0, said));
}

/// A client that is logged in runs batches and nothing else, until it closes.
pub proof fn lemma_a_client_runs_batches(kind: u8, body: Seq<u8>)
    ensures
        session::batch_run(None) == Ok::<Option<Seq<char>>, Fault>(None),
        session::batch_run(Some((0x01u8, body))) == (match batch::batch_sql(body) {
            Ok(sql) => Ok::<Option<Seq<char>>, Fault>(Some(sql)),
            Err(fault) => Err(fault),
        }),
        kind != 0x01 ==> session::batch_run(Some((kind, body))) == Err::<Option<Seq<char>>, Fault>(
            Fault {
                message: "packet type "@ + seq![
                    '0',
                    'x',
                    "0123456789abcdef"@[kind as int / 16],
                    "0123456789abcdef"@[kind as int % 16],
                ] + " after the login"@,
                retryable: false,
            },
        ),
{
    numbers::lemma_a_byte_is_named(kind);
}

/// A letter of ASCII is upper-case by the alphabet, and any other character
/// is as it is.
pub proof fn lemma_letters_are_upper_case(c: char, n: int)
    requires
        0 <= n < 26,
    ensures
        c == "abcdefghijklmnopqrstuvwxyz"@[n] ==> insert::upper(c)
            == "ABCDEFGHIJKLMNOPQRSTUVWXYZ"@[n],
        c < 'a' || 'z' < c ==> insert::upper(c) == c,
{
    reveal_strlit("abcdefghijklmnopqrstuvwxyz");
    reveal_strlit("ABCDEFGHIJKLMNOPQRSTUVWXYZ");
}

/// The verb of a statement is its first word upper-case, white space ahead of
/// it or not, up to the first character that is no letter.
pub proof fn lemma_the_verb_is_the_first_word(
    ahead: Seq<char>,
    word: Seq<char>,
    rest: Seq<char>,
)
    requires
        forall|i: int| 0 <= i < ahead.len() ==> text::is_space(#[trigger] ahead[i]),
        forall|i: int|
            0 <= i < word.len() ==> 'a' <= #[trigger] word[i] <= 'z' || 'A' <= word[i] <= 'Z',
        rest.len() == 0 || !('a' <= rest[0] <= 'z' || 'A' <= rest[0] <= 'Z'),
        word.len() > 0 || rest.len() == 0 || !text::is_space(rest[0]),
    ensures
        session::verb_of(ahead + (word + rest)) == Seq::new(
            word.len(),
            |i: int| insert::upper(word[i]),
        ),
{
    texts::lemma_ahead_is_trimmed(ahead, word + rest);
    if word.len() > 0 {
        assert((word + rest)[0] == word[0]);
    } else {
        assert(word + rest =~= rest);
    }
    lemma_a_word_is_read(word, rest);
}

/// Letters are read up to what is none.
proof fn lemma_a_word_is_read(word: Seq<char>, rest: Seq<char>)
    requires
        forall|i: int|
            0 <= i < word.len() ==> 'a' <= #[trigger] word[i] <= 'z' || 'A' <= word[i] <= 'Z',
        rest.len() == 0 || !('a' <= rest[0] <= 'z' || 'A' <= rest[0] <= 'Z'),
    ensures
        session::leading_word(word + rest) == Seq::new(
            word.len(),
            |i: int| insert::upper(word[i]),
        ),
    decreases word.len(),
{
    let said = Seq::new(word.len(), |i: int| insert::upper(word[i]));
    if word.len() == 0 {
        assert(word + rest =~= rest);
        assert(said =~= Seq::empty());
    } else {
        let others = word.skip(1);
        assert(forall|i: int| 0 <= i < others.len() ==> #[trigger] others[i] == word[i + 1]);
        lemma_a_word_is_read(others, rest);
        assert('a' <= word[0] <= 'z' || 'A' <= word[0] <= 'Z');
        assert((word + rest).skip(1) =~= others + rest);
        assert(said =~= seq![insert::upper(word[0])] + Seq::new(
            others.len(),
            |i: int| insert::upper(others[i]),
        ));
    }
}

/// What the session's owner answers is the answer, whatever the statement,
/// and the client executed it.
pub proof fn lemma_the_owner_answers_first(
    session: SessionView,
    sql: Seq<char>,
    answer: AnswerView,
)
    ensures
        session::answer_for(session, sql, Some(answer)) == (answer, EventView::Executed(sql)),
{
}

/// Where the owner has no answer, a SELECT gets the table, an INSERT that can
/// be taken apart is one row and arrives from the client's address, its
/// database, the table and the column, one that cannot is a syntax error, and
/// anything else touches no row.
pub proof fn lemma_the_verb_decides_the_answer(session: SessionView, sql: Seq<char>)
    ensures
        ({
            let verb = session::verb_of(sql);
            let (answer, event) = session::answer_for(session, sql, None);
            &&& verb == seq!['S', 'E', 'L', 'E', 'C', 'T'] ==> answer == (AnswerView::Rows {
                columns: session.columns,
                rows: session.rows,
            }) && event == EventView::Selected(sql)
            &&& verb == seq!['I', 'N', 'S', 'E', 'R', 'T'] ==> match insert::insert_in(sql) {
                Some((table, column, bytes)) => {
                    &&& answer == AnswerView::Complete(1)
                    &&& event == EventView::Inserted(
                        ArrivedView {
                            origin_uri: "mssql://"@ + session.peer + "/"@ + session.login.database
                                + "/"@ + table + "/"@ + column,
                            bytes,
                        },
                    )
                },
                None => {
                    &&& answer == (AnswerView::Error {
                        number: 102,
                        message: "only INSERT INTO t (c) VALUES (...) is served here"@,
                    })
                    &&& event == EventView::Executed(sql)
                },
            }
            &&& verb != seq!['S', 'E', 'L', 'E', 'C', 'T'] && verb != seq![
                'I',
                'N',
                'S',
                'E',
                'R',
                'T',
            ] ==> answer == AnswerView::Complete(0) && event == EventView::Executed(sql)
        }),
{
    reveal_strlit("SELECT");
    reveal_strlit("INSERT");
    assert("SELECT"@ =~= seq!['S', 'E', 'L', 'E', 'C', 'T']);
    assert("INSERT"@ =~= seq!['I', 'N', 'S', 'E', 'R', 'T']);
    assert("SELECT"@[0] != "INSERT"@[0]);
}

/// An answer goes out as its tokens: rows as their columns, each of any text,
/// the rows in order and their number; a count as that count; an error as its
/// number and its text, and that the statement failed.
pub proof fn lemma_an_answer_is_its_tokens(
    columns: Seq<Seq<char>>,
    rows: Seq<Seq<Option<Seq<char>>>>,
    count: u64,
    number: i32,
    said: Seq<char>,
)
    ensures
        ({
            let tokens = session::answer_tokens(AnswerView::Rows { columns, rows });
            let n = rows.len() as int;
            &&& tokens.len() == n + 2
            &&& tokens[0] matches TokenView::ColMetadata(declared) && declared.len()
                == columns.len() && forall|i: int|
                0 <= i < columns.len() ==> #[trigger] declared[i] == (ColumnView {
                    name: columns[i],
                    kind: ColumnType::NVarChar(0xFFFF),
                })
            &&& forall|i: int| 0 <= i < n ==> #[trigger] tokens[i + 1] == TokenView::Row(rows[i])
            &&& tokens[n + 1] == (TokenView::Done { status: 0x10, rows: rows.len() as u64 })
        }),
        session::answer_tokens(AnswerView::Complete(count)) == seq![
            TokenView::Done { status: 0x10, rows: count },
        ],
        session::answer_tokens(AnswerView::Error { number, message: said }) == seq![
            TokenView::Error(says(number, 16, said)),
            TokenView::Done { status: 2, rows: 0 },
        ],
{
    assert(token::plain_message(number, 16, said) =~= says(number, 16, said));
}

} // verus!
