//! Streams sent and received, both ends of the wire in one place.

use std::time::Duration;

use xmip_core_transport_mssql::error::TransportError;
use xmip_core_transport_mssql::session::LoginAnswer;
use xmip_core_transport_mssql::wire::{read_message, Cursor};
use xmip_core_transport_mssql::{
    Answer, Arrived, Client, Event, MssqlTransport, Outgoing, QueryResult, Session,
    DEFAULT_QUERY, LOOPBACK_TARGET,
};

fn secs(n: u64) -> Duration {
    Duration::from_secs(n)
}

fn one(bytes: &[u8]) -> Option<(u8, Vec<u8>)> {
    read_message(&mut Cursor::new(bytes)).expect("a message")
}

/// Where the far end is bound.
const ADDRESS: &str = "127.0.0.1:40000";

/// Both ends of a conversation up to the login: `near` connecting to
/// `database`, `far` accepting.
fn connect(
    near: &MssqlTransport,
    database: &str,
    far: &MssqlTransport,
) -> (
    Result<Client, TransportError>,
    Result<Session, TransportError>,
) {
    let answer = Session::prelogin_answer(one(&Client::prelogin_request())).expect("pre-login");
    let request =
        Client::login_request(one(&answer), database, &near.login(), 7).expect("login");
    let LoginAnswer { reply, session } = Session::login_answer(
        one(&request),
        far.expected().as_ref(),
        "127.0.0.1:50000",
    )
    .expect("answer");
    (Client::connected(one(&reply)), session)
}

/// `sql` run by `client` and answered by `session`.
fn run(
    client: &Client,
    session: &Session,
    sql: &str,
    answering: Option<Answer>,
) -> (Result<QueryResult, TransportError>, Event) {
    let batch = Session::batch(one(&client.query_request(sql)))
        .expect("batch")
        .expect("one");
    let (reply, event) = session.respond(&batch, answering);
    (Client::query_answer(one(&reply)), event)
}

/// `bytes` sent by `near` to `target`, as far as `far` takes them.
fn send(
    near: &MssqlTransport,
    far: &MssqlTransport,
    target: &str,
    bytes: &[u8],
) -> Result<Arrived, TransportError> {
    let Outgoing {
        server,
        database,
        sql,
    } = near.outgoing(target, bytes)?;
    assert_eq!(server, ADDRESS);
    let (client, session) = connect(near, &database, far);
    let client = client?;
    let session = session.expect("accepting");
    let (result, event) = run(&client, &session, &sql, None);
    assert_eq!(result?.rows_affected, 1);
    MssqlTransport::taken(event.inserted())
}

#[test]
fn a_receive_runs_the_query_and_each_row_is_a_stream() {
    let far_end = MssqlTransport::new("127.0.0.1:0", "orders", "xmip").timing_out_after(secs(2));
    let receiver = MssqlTransport::new(ADDRESS, "orders", "xmip")
        .with_query("SELECT id, kind, payload FROM inbox ORDER BY id")
        .timing_out_after(secs(2));
    let (client, session) = connect(&receiver, receiver.database(), &far_end);
    let session = session.expect("accepting").with_table(
        &["id", "kind", "payload"],
        &[
            &[Some("41"), Some("order"), Some("ISA*00*")],
            &[None, Some("raw"), Some("0xfffe")],
        ],
    );
    assert_eq!(session.user(), "xmip");
    assert_eq!(session.database(), "orders");
    assert_eq!(session.login().hostname, "xmip");
    let (result, event) = run(&client.expect("login"), &session, receiver.query(), None);
    assert_eq!(
        event,
        Event::Selected("SELECT id, kind, payload FROM inbox ORDER BY id".into())
    );
    assert!(Session::batch(None).expect("closed").is_none());
    let arrived = receiver.arrivals(&result.expect("receiving"));
    assert_eq!(arrived.len(), 2);
    assert_eq!(arrived[0].bytes, b"ISA*00*");
    assert!(arrived[0].origin_uri.ends_with("/orders?row=41"));
    assert_eq!(
        arrived[1].bytes,
        [0xff, 0xfe],
        "a binary literal is the bytes"
    );
    assert!(arrived[1].origin_uri.ends_with("?row=1"), "named by index");
}

#[test]
fn a_send_inserts_the_stream_as_one_column_and_the_login_is_checked() {
    let far_end = MssqlTransport::new("127.0.0.1:0", "orders", "xmip")
        .with_password("secret")
        .timing_out_after(secs(2));
    let near = MssqlTransport::new(ADDRESS, "orders", "xmip")
        .with_password("secret")
        .timing_out_after(secs(2));
    let first = send(
        &near,
        &far_end,
        &format!("mssql://{ADDRESS}/orders/inbox/payload"),
        b"it's here",
    )
    .expect("one");
    assert_eq!(first.bytes, b"it's here");
    assert!(first.origin_uri.ends_with("/orders/inbox/payload"));
    let second = send(&near, &far_end, "outbox/body", b"").expect("one");
    assert!(
        second.bytes.is_empty(),
        "an empty payload is an empty literal"
    );
    assert!(second.origin_uri.ends_with("/orders/outbox/body"));
    let binary = send(
        &near,
        &far_end,
        &format!("{ADDRESS}/orders/inbox/payload"),
        &[0xff, 0xfe],
    )
    .expect("one");
    assert_eq!(
        binary.bytes,
        [0xff, 0xfe],
        "not text, so the binary literal"
    );
    let bad_target = near.outgoing("sqlserver://host/only-one", b"x");
    assert!(!bad_target.expect_err("not a column").retryable);
    let wrong = MssqlTransport::new(ADDRESS, "orders", "xmip")
        .with_password("wrong")
        .timing_out_after(secs(2));
    let (refused, error) = connect(&wrong, "orders", &far_end);
    let error = error.err().expect("wrong password");
    assert!(error.message.contains("Login failed"));
    let refused = refused.expect_err("wrong password");
    assert!(!refused.retryable);
    assert!(refused.message.contains("18456"), "{}", refused.message);
    assert_eq!(far_end.name(), "mssql");
}

#[test]
fn a_batch_the_far_end_errors_is_the_senders_error() {
    let far_end = MssqlTransport::new("127.0.0.1:0", "orders", "xmip").timing_out_after(secs(2));
    let near = MssqlTransport::new(ADDRESS, "orders", "xmip").timing_out_after(secs(2));
    let outgoing = near.outgoing("missing/payload", b"x").expect("a target");
    let (client, session) = connect(&near, &outgoing.database, &far_end);
    let answering = outgoing.sql.contains("[missing]").then(|| Answer::Error {
        number: 208,
        message: "Invalid object name 'missing'.".to_string(),
    });
    let (result, event) = run(
        &client.expect("login"),
        &session.expect("accepting"),
        &outgoing.sql,
        answering,
    );
    assert!(matches!(event, Event::Executed(sql) if sql.starts_with("INSERT INTO [missing]")));
    let error = result.expect_err("errored");
    assert!(error.message.contains("208"), "{}", error.message);
    assert!(error.message.contains("Invalid object name"));
    assert!(!error.retryable);
}

/// One round of the loopback pair.
fn round(pair: &MssqlTransport, payload: &[u8]) -> Result<Arrived, TransportError> {
    send(&pair.facing(ADDRESS), pair, LOOPBACK_TARGET, payload)
}

#[test]
fn the_loopback_inserts_text_and_bytes_through_its_own_session() {
    let pair = MssqlTransport::loopback(secs(2));
    let arrived = round(&pair, b"it's here").expect("round");
    assert_eq!(arrived.bytes, b"it's here");
    assert!(arrived.origin_uri.starts_with("mssql://127.0.0.1:"));
    assert!(arrived.origin_uri.ends_with("/probe/probe/payload"));
    let binary = round(&pair, &[0xff, 0xfe]).expect("the binary literal");
    assert_eq!(binary.bytes, [0xff, 0xfe]);
    assert_eq!(pair.name(), "mssql");
}

/// The Playground's edge payloads, written here so the crate does not
/// depend on it.
fn edge_payloads() -> Vec<(&'static str, Vec<u8>)> {
    vec![
        ("empty", Vec::new()),
        ("one byte", vec![0x2a]),
        ("every byte", (0..=255).collect()),
        ("nul run", vec![0; 512]),
        ("high bytes", vec![0xff; 512]),
        ("crlf storm", b"\r\n".repeat(400)),
    ]
}

#[test]
fn the_loopback_returns_the_edge_payloads_whole() {
    let pair = MssqlTransport::loopback(secs(2));
    for (name, payload) in edge_payloads() {
        let arrived = round(&pair, &payload).expect(name);
        assert_eq!(arrived.bytes, payload, "{name}");
    }
}

#[test]
fn a_transport_is_what_it_is_told() {
    let plain = MssqlTransport::new("db:1433", "orders", "xmip");
    assert_eq!(plain.server(), "db:1433");
    assert_eq!(plain.database(), "orders");
    assert_eq!(plain.query(), DEFAULT_QUERY);
    assert_eq!(plain.query(), "SELECT id, payload FROM inbox ORDER BY id");
    assert_eq!(plain.timeout(), None);
    assert_eq!(plain.login().user, "xmip");
    assert_eq!(plain.login().password, "");
    assert!(plain.expected().is_none());
    let told = plain
        .with_password("secret")
        .with_query("SELECT 1")
        .timing_out_after(secs(3));
    assert_eq!(told.query(), "SELECT 1");
    assert_eq!(told.timeout(), Some(secs(3)));
    assert_eq!(told.expected(), Some(told.login()));
    assert_eq!(told.login().password, "secret");
    let copy = told.clone().facing("other:1");
    assert_eq!(copy.server(), "other:1");
    assert_eq!(copy.login(), told.login());
    assert_eq!(told.server(), "db:1433");
}

#[test]
fn a_target_names_what_it_names_and_the_rest_is_configured() {
    let near = MssqlTransport::new("db:1433", "orders", "xmip");
    let place = |target: &str| {
        let place = near.resolve(target).expect("a target");
        (place.server, place.database, place.table, place.column)
    };
    let named = |a: &str, b: &str, c: &str, d: &str| {
        (a.to_string(), b.to_string(), c.to_string(), d.to_string())
    };
    assert_eq!(
        place("mssql://host:1/other/t/c"),
        named("host:1", "other", "t", "c")
    );
    assert_eq!(
        place("sqlserver://host/other/t/c"),
        named("host", "other", "t", "c")
    );
    assert_eq!(
        place("mssql://host/t/c"),
        named("host", "orders", "t", "c")
    );
    assert_eq!(
        place("host:1/other/t/c"),
        named("host:1", "other", "t", "c")
    );
    assert_eq!(place("t/c"), named("db:1433", "orders", "t", "c"));
    assert_eq!(
        place("other/t/c"),
        named("db:1433", "other", "t", "c"),
        "no port, so no server"
    );
    let refused = |target: &str| near.resolve(target).expect_err("refused").message;
    assert_eq!(
        refused("only \"one\""),
        "\"only \\\"one\\\"\" is not database/table/column or table/column"
    );
    assert_eq!(
        refused("mssql://host"),
        "\"mssql://host\" is not database/table/column or table/column"
    );
    assert_eq!(
        refused("a/b/c/d"),
        "\"a/b/c/d\" is not database/table/column or table/column"
    );
}

#[test]
fn a_row_is_named_by_its_first_column_and_carries_its_last() {
    let near = MssqlTransport::new("db:1433", "orders", "xmip");
    let arrived = near.arrivals(&QueryResult {
        columns: vec!["only".into()],
        rows: vec![
            vec![Some("0x4142".into())],
            vec![None],
            Vec::new(),
            vec![Some("x".into()), None],
        ],
        rows_affected: 0,
    });
    let told: Vec<(String, Vec<u8>)> = arrived
        .into_iter()
        .map(|one| (one.origin_uri, one.bytes))
        .collect();
    assert_eq!(
        told,
        [
            ("mssql://db:1433/orders?row=0x4142".to_string(), b"AB".to_vec()),
            ("mssql://db:1433/orders?row=1".to_string(), Vec::new()),
            ("mssql://db:1433/orders?row=2".to_string(), Vec::new()),
            ("mssql://db:1433/orders?row=x".to_string(), Vec::new()),
        ]
    );
}

#[test]
fn a_far_end_that_takes_nothing_says_so() {
    assert_eq!(
        MssqlTransport::taken(None).expect_err("nothing").message,
        "the client closed without inserting"
    );
}
