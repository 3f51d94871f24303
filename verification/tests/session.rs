//! A session against a client, and against what is no client.

use xmip_core_transport_mssql::prelogin::{encode_prelogin, read_prelogin, Prelogin};
use xmip_core_transport_mssql::session::{LoginAnswer, LOGIN_FAILED, SYNTAX_ERROR};
use xmip_core_transport_mssql::wire::{
    packets, read_message, Cursor, DEFAULT_PACKET_SIZE, LOGIN7, PRELOGIN, SQL_BATCH,
    TABULAR_RESULT,
};
use xmip_core_transport_mssql::{Answer, Client, Event, Login, Session};

fn one(bytes: &[u8]) -> Option<(u8, Vec<u8>)> {
    read_message(&mut Cursor::new(bytes)).expect("a message")
}

fn login_answer(login: &Login, expected: Option<&Login>) -> LoginAnswer {
    let answer = Session::prelogin_answer(one(&Client::prelogin_request())).expect("pre-login");
    let request = Client::login_request(one(&answer), "orders", login, 7).expect("login");
    Session::login_answer(one(&request), expected, "10.0.0.1:50000").expect("answer")
}

#[test]
fn without_an_expected_login_any_login_is_taken_and_a_stray_packet_is_refused() {
    let login = Login::new("anyone", "whatever");
    let LoginAnswer { reply, session } = login_answer(&login, None);
    let client = Client::connected(one(&reply)).expect("login");
    let session = session.expect("accepting");
    assert_eq!(session.user(), "anyone");
    assert_eq!(session.login().login.password, "whatever");
    assert_eq!(session.login().app_name, "xmip");
    let request = client.query_request("TRUNCATE TABLE inbox");
    let sql = Session::batch(one(&request)).expect("batch").expect("one");
    let answering = sql.starts_with("TRUNCATE").then_some(Answer::Complete(0));
    let (reply, event) = session.respond(&sql, answering);
    assert_eq!(Client::execute_answer(one(&reply)).expect("truncate"), 0);
    assert_eq!(event, Event::Executed("TRUNCATE TABLE inbox".into()));
    let stray = packets(PRELOGIN, &[], DEFAULT_PACKET_SIZE);
    let error = Session::batch(one(&stray)).expect_err("a pre-login after the login");
    assert!(
        error.message.contains("after the login"),
        "{}",
        error.message
    );
}

#[test]
fn a_refused_login_is_told_to_the_client() {
    let LoginAnswer { reply, session } = login_answer(
        &Login::new("xmip", "wrong"),
        Some(&Login::new("xmip", "secret")),
    );
    let error = session.expect_err("refused");
    assert_eq!(error.message, "Login failed for user 'xmip'.");
    assert!(!error.retryable);
    let error = Client::connected(one(&reply)).expect_err("refused");
    assert_eq!(
        error.message,
        format!("the server answered {LOGIN_FAILED}: Login failed for user 'xmip'.")
    );
    assert!(!error.retryable);
    assert!(
        login_answer(
            &Login::new("other", "secret"),
            Some(&Login::new("xmip", "secret"))
        )
        .session
        .is_err(),
        "the wrong user"
    );
}

#[test]
fn a_login_that_is_demanded_is_taken() {
    let login = Login::new("xmip", "secret");
    let LoginAnswer { reply, session } = login_answer(&login, Some(&login.clone()));
    assert!(session.is_ok());
    let client = Client::connected(one(&reply)).expect("login");
    assert_eq!(client.program(), "Microsoft SQL Server (xmip)");
    assert_eq!(client.packet_size(), 4096);
}

#[test]
fn each_refusal_of_a_client_says_why() {
    assert_eq!(
        Session::prelogin_answer(Some((SQL_BATCH, Vec::new())))
            .expect_err("a batch")
            .message,
        "packet type 0x01 where 0x12 was due"
    );
    assert_eq!(
        Session::prelogin_answer(None).expect_err("closed").message,
        "the client closed before the login"
    );
    assert_eq!(
        Session::prelogin_answer(Some((PRELOGIN, Vec::new())))
            .expect_err("empty")
            .message,
        "a field that runs past the message"
    );
    let refused = Session::login_answer(Some((PRELOGIN, Vec::new())), None, "");
    assert_eq!(
        refused.err().expect("a pre-login").message,
        "packet type 0x12 where 0x10 was due"
    );
    let refused = Session::login_answer(Some((LOGIN7, vec![0; 8])), None, "");
    assert_eq!(
        refused.err().expect("nothing").message,
        "TDS 0x00000000 is not 7.2 to 7.4"
    );
    assert_eq!(
        Session::batch(Some((LOGIN7, Vec::new())))
            .expect_err("a login")
            .message,
        "packet type 0x10 after the login"
    );
    assert_eq!(
        Session::batch(Some((SQL_BATCH, vec![1, 0, 0, 0])))
            .expect_err("no batch")
            .message,
        "a headers length under four"
    );
    assert_eq!(Session::batch(None).expect("closed"), None);
}

#[test]
fn a_session_says_its_version_before_the_login() {
    let theirs = encode_prelogin(&Prelogin::default());
    let answer = Session::prelogin_answer(Some((PRELOGIN, theirs))).expect("answer");
    let (kind, body) = one(&answer).expect("one");
    assert_eq!(kind, TABULAR_RESULT);
    let said = read_prelogin(&body).expect("read");
    assert_eq!(said.version, [16, 0, 4, 0, 0, 0]);
    assert_eq!(said.encryption, 2);
}

#[test]
fn a_batch_is_answered_by_its_verb() {
    let session = login_answer(&Login::new("xmip", ""), None)
        .session
        .expect("session")
        .with_table(&["id"], &[&[Some("41")], &[None]]);
    let (answer, event) = session.answer("\n select id FROM inbox", None);
    assert_eq!(
        answer,
        Answer::Rows {
            columns: vec!["id".into()],
            rows: vec![vec![Some("41".into())], vec![None]],
        }
    );
    assert_eq!(event, Event::Selected("\n select id FROM inbox".into()));
    let (answer, event) = session.answer("Insert Into [t] (c) Values (N'a')", None);
    assert_eq!(answer, Answer::Complete(1));
    let arrived = event.inserted().expect("inserted");
    assert_eq!(arrived.origin_uri, "mssql://10.0.0.1:50000/orders/t/c");
    assert_eq!(arrived.bytes, b"a");
    let (answer, event) = session.answer("INSERT nonsense", None);
    assert_eq!(
        answer,
        Answer::Error {
            number: SYNTAX_ERROR,
            message: "only INSERT INTO t (c) VALUES (...) is served here".into(),
        }
    );
    assert!(event.inserted().is_none());
    let (answer, event) = session.answer("SELECTED", None);
    assert_eq!(answer, Answer::Complete(0));
    assert_eq!(event, Event::Executed("SELECTED".into()));
    let (answer, event) = session.answer("SELECT 1", Some(Answer::Complete(9)));
    assert_eq!(answer, Answer::Complete(9), "the owner's answer comes first");
    assert_eq!(event, Event::Executed("SELECT 1".into()));
}

#[test]
fn a_table_without_rows_is_read_as_one() {
    let session = login_answer(&Login::new("xmip", ""), None)
        .session
        .expect("session");
    let (reply, _) = session.respond("SELECT 1", None);
    let result = Client::query_answer(one(&reply)).expect("query");
    assert!(result.columns.is_empty());
    assert!(result.rows.is_empty());
    assert_eq!(result.rows_affected, 0);
}
