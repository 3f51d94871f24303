//! A client against a session, and against what is no server.

use xmip_core_transport_mssql::client::sql_error;
use xmip_core_transport_mssql::error::TransportError;
use xmip_core_transport_mssql::prelogin::{
    encode_prelogin, Prelogin, ENCRYPT_OFF, ENCRYPT_ON, ENCRYPT_REQ,
};
use xmip_core_transport_mssql::session::LoginAnswer;
use xmip_core_transport_mssql::token::{encode_tokens, Message, Token, ENV_PACKET_SIZE};
use xmip_core_transport_mssql::wire::{
    packets, read_message, Cursor, DEFAULT_PACKET_SIZE, SQL_BATCH, TABULAR_RESULT,
};
use xmip_core_transport_mssql::{
    quote_identifier, quote_literal, Answer, Client, Event, Login, QueryResult, Session,
};

/// The one message in `bytes`.
fn one(bytes: &[u8]) -> Option<(u8, Vec<u8>)> {
    read_message(&mut Cursor::new(bytes)).expect("a message")
}

/// Both ends of a conversation up to the login.
fn conversation(
    database: &str,
    login: &Login,
    expected: Option<&Login>,
) -> (
    Result<Client, TransportError>,
    Result<Session, TransportError>,
) {
    let opening = Client::prelogin_request();
    let answer = Session::prelogin_answer(one(&opening)).expect("pre-login");
    let request = Client::login_request(one(&answer), database, login, 7).expect("login");
    let LoginAnswer { reply, session } =
        Session::login_answer(one(&request), expected, "127.0.0.1:50000").expect("answer");
    (Client::connected(one(&reply)), session)
}

/// One batch run by `client`, what `session` did by it, and its answer.
fn run(
    client: &Client,
    session: &Session,
    sql: &str,
    answering: Option<Answer>,
) -> (Result<QueryResult, TransportError>, Event) {
    let request = client.query_request(sql);
    let batch = Session::batch(one(&request)).expect("batch").expect("one");
    let (reply, event) = session.respond(&batch, answering);
    (Client::query_answer(one(&reply)), event)
}

#[test]
fn quoting_doubles_the_delimiter_and_nothing_else() {
    assert_eq!(quote_literal("it's"), "N'it''s'");
    assert_eq!(quote_literal("back\\slash"), "N'back\\slash'");
    assert_eq!(quote_literal(""), "N''");
    assert_eq!(quote_identifier("in]box"), "[in]]box]");
    assert_eq!(quote_identifier("In box"), "[In box]");
}

#[test]
fn an_error_is_judged_by_its_number() {
    assert!(sql_error(&Message::new(1205, 13, "deadlock victim")).retryable);
    assert!(sql_error(&Message::new(-2, 11, "timeout")).retryable);
    assert!(sql_error(&Message::new(40613, 20, "database not available")).retryable);
    assert!(!sql_error(&Message::new(18456, 14, "Login failed")).retryable);
    assert!(!sql_error(&Message::new(208, 16, "Invalid object name")).retryable);
}

#[test]
fn an_error_says_its_number_and_its_text() {
    assert_eq!(
        sql_error(&Message::new(-2, 11, "timeout")).message,
        "the server answered -2: timeout"
    );
    let passing = [
        -2, 233, 1204, 1205, 1222, 8645, 8651, 10053, 10054, 10060, 40197, 40501, 40613, 49918,
        49919, 49920,
    ];
    for number in passing {
        assert!(sql_error(&Message::new(number, 1, "")).retryable);
        assert!(!sql_error(&Message::new(number + 1000, 1, "")).retryable);
    }
}

#[test]
fn a_client_logs_in_queries_executes_and_is_told_of_an_error() {
    let login = Login::new("xmip", "secret");
    let expected = Login::new("xmip", "secret");
    let (client, session) = conversation("orders", &login, Some(&expected));
    let client = client.expect("login");
    let session = session.expect("accepting").with_table(
        &["id", "payload"],
        &[&[Some("1"), None], &[None, Some("x")]],
    );
    let answering = |sql: &str| {
        if sql.contains("boom") {
            Some(Answer::Error {
                number: 208,
                message: "Invalid object name 'boom'.".to_string(),
            })
        } else {
            None
        }
    };
    let mut events = Vec::new();
    assert!(client.program().contains("SQL Server"));
    assert_eq!(client.packet_size(), DEFAULT_PACKET_SIZE);
    let sql = "SELECT id, payload FROM inbox";
    let (result, event) = run(&client, &session, sql, answering(sql));
    events.push(event);
    let result = result.expect("query");
    assert_eq!(result.columns, ["id", "payload"]);
    assert_eq!(
        result.rows,
        [[Some("1".to_string()), None], [None, Some("x".to_string())]]
    );
    assert_eq!(result.rows_affected, 2);
    let sql = "DELETE FROM inbox";
    let request = client.query_request(sql);
    let batch = Session::batch(one(&request)).expect("batch").expect("one");
    let (reply, event) = session.respond(&batch, answering(sql));
    events.push(event);
    assert_eq!(Client::execute_answer(one(&reply)).expect("execute"), 0);
    let sql = "SELECT * FROM boom";
    let (result, event) = run(&client, &session, sql, answering(sql));
    events.push(event);
    let error = result.expect_err("errored");
    assert!(error.message.contains("208"), "{}", error.message);
    assert!(!error.retryable);
    assert!(Session::batch(one(b"")).expect("closed").is_none());
    assert_eq!(session.user(), "xmip");
    assert_eq!(session.database(), "orders");
    assert_eq!(events.len(), 3);
    assert_eq!(events[1], Event::Executed("DELETE FROM inbox".into()));
}

#[test]
fn a_server_that_requires_encryption_or_speaks_nonsense_is_refused() {
    let login = Login::new("xmip", "");
    let demand = encode_prelogin(&Prelogin {
        encryption: ENCRYPT_REQ,
        ..Prelogin::default()
    });
    let no_ack = encode_tokens(&[Token::Done { status: 0, rows: 0 }]);
    let connect = |answer: &[u8]| {
        let message = read_message(&mut Cursor::new(answer))?;
        Client::login_request(message, "orders", &login, 7)
    };
    let error = connect(&packets(TABULAR_RESULT, &demand, DEFAULT_PACKET_SIZE))
        .err()
        .expect("encryption");
    assert!(!error.retryable);
    assert!(error.message.contains("ADR-0033"), "{}", error.message);
    assert!(
        connect(&packets(SQL_BATCH, &demand, DEFAULT_PACKET_SIZE))
            .err()
            .expect("wrong type")
            .message
            .contains("0x01")
    );
    assert!(
        !connect(b"HTTP/1.1 400 Bad Request\r\n\r\n")
            .err()
            .expect("not the protocol")
            .retryable
    );
    let agreed = encode_prelogin(&Prelogin::default());
    assert!(connect(&packets(TABULAR_RESULT, &agreed, DEFAULT_PACKET_SIZE)).is_ok());
    let answer = packets(TABULAR_RESULT, &no_ack, DEFAULT_PACKET_SIZE);
    assert!(
        Client::connected(one(&answer))
            .err()
            .expect("no ack")
            .message
            .contains("acknowledge")
    );
}

#[test]
fn each_refusal_of_an_answer_says_why() {
    let login = Login::new("xmip", "");
    assert_eq!(
        Client::login_request(None, "orders", &login, 7)
            .expect_err("closed")
            .message,
        "the server closed mid-conversation"
    );
    assert_eq!(
        Client::connected(Some((SQL_BATCH, Vec::new())))
            .expect_err("not an answer")
            .message,
        "packet type 0x01 is not a server's answer"
    );
    assert_eq!(
        Client::connected(Some((TABULAR_RESULT, Vec::new())))
            .expect_err("no ack")
            .message,
        "the server did not acknowledge the login"
    );
    assert_eq!(
        Client::query_answer(Some((TABULAR_RESULT, vec![0])))
            .expect_err("nonsense")
            .message,
        "token 0x00 is not one this crate reads"
    );
    for demand in [ENCRYPT_ON, ENCRYPT_REQ] {
        let on = encode_prelogin(&Prelogin {
            encryption: demand,
            ..Prelogin::default()
        });
        assert_eq!(
            Client::login_request(Some((TABULAR_RESULT, on)), "orders", &login, 7)
                .expect_err("encryption")
                .message,
            "the server requires encryption, and TLS is `xmip-core-tls`'s (ADR-0033)"
        );
    }
    let off = encode_prelogin(&Prelogin {
        encryption: ENCRYPT_OFF,
        ..Prelogin::default()
    });
    assert!(Client::login_request(Some((TABULAR_RESULT, off)), "orders", &login, 7).is_ok());
}

#[test]
fn the_first_error_fails_a_login_and_the_last_fails_a_query() {
    let mut bytes = encode_tokens(&[
        Token::Error(Message::new(1, 14, "first")),
        Token::Error(Message::new(2, 14, "last")),
    ]);
    assert_eq!(
        Client::connected(Some((TABULAR_RESULT, bytes.clone())))
            .expect_err("refused")
            .message,
        "the server answered 1: first"
    );
    assert_eq!(
        Client::query_answer(Some((TABULAR_RESULT, bytes.clone())))
            .expect_err("failed")
            .message,
        "the server answered 2: last"
    );
    bytes.push(0);
    assert_eq!(
        Client::connected(Some((TABULAR_RESULT, bytes.clone())))
            .expect_err("refused")
            .message,
        "the server answered 1: first",
        "told before it breaks off"
    );
    assert_eq!(
        Client::query_answer(Some((TABULAR_RESULT, bytes)))
            .expect_err("broken")
            .message,
        "token 0x00 is not one this crate reads"
    );
}

#[test]
fn a_client_settles_on_the_packet_size_it_is_told() {
    let told = |sizes: &[&str]| {
        let mut tokens: Vec<Token> = sizes
            .iter()
            .map(|size| Token::EnvChange {
                kind: ENV_PACKET_SIZE,
                new: size.to_string(),
                old: String::new(),
            })
            .collect();
        tokens.push(Token::LoginAck {
            version: 0x7400_0004,
            program: "server".into(),
        });
        let client = Client::connected(Some((TABULAR_RESULT, encode_tokens(&tokens))))
            .expect("acknowledged");
        assert_eq!(client.program(), "server");
        client.packet_size()
    };
    assert_eq!(told(&[]), 4096);
    assert_eq!(told(&["8000"]), 8000);
    assert_eq!(told(&["8000", "much"]), 8000, "what says no number says nothing");
    assert_eq!(told(&["8000", "+700"]), 700);
    assert_eq!(told(&["1"]), 512);
    assert_eq!(told(&["65535"]), 32767);
    assert_eq!(told(&["65536"]), 4096);
    assert_eq!(told(&["-1"]), 4096);
}

#[test]
fn a_batch_goes_in_packets_of_the_size_settled_on() {
    let tokens = [
        Token::EnvChange {
            kind: ENV_PACKET_SIZE,
            new: "512".into(),
            old: "4096".into(),
        },
        Token::LoginAck {
            version: 0x7400_0004,
            program: "server".into(),
        },
    ];
    let client =
        Client::connected(Some((TABULAR_RESULT, encode_tokens(&tokens)))).expect("acknowledged");
    let request = client.query_request(&"x".repeat(500));
    assert_eq!(request.len(), 22 + 1000 + 3 * 8);
    assert_eq!(
        Session::batch(one(&request)).expect("batch"),
        Some("x".repeat(500))
    );
}

#[test]
fn a_count_is_taken_where_it_is_meaningful() {
    let bytes = encode_tokens(&[
        Token::DoneInProc {
            status: 0x10,
            rows: 3,
        },
        Token::DoneProc {
            status: 0x11,
            rows: 4,
        },
        Token::Done {
            status: 0x20,
            rows: 5,
        },
    ]);
    assert_eq!(
        Client::execute_answer(Some((TABULAR_RESULT, bytes))).expect("counted"),
        4
    );
}
