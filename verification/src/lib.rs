//! Streams that arrive as rows. One row is one Stream: the last column of
//! a configured query is what Xmip carries, the first column is where it
//! came from.
//!
//! SQL Server is the database most of the estate's partners already have,
//! and a table in it is the oldest integration surface there is: a
//! producer inserts, an integrator polls. A Receive Location runs its
//! query — `SELECT id, payload FROM inbox ORDER BY id` unless told
//! otherwise — and hands each row up; a Send Location inserts the Stream
//! as one column of one row — as an `N'…'` literal when the Stream is
//! UTF-8 without a NUL, as a `0x…` binary literal otherwise, and a value
//! in that form is the bytes again on the way back (`binary.rs`). What is
//! spoken is Tabular Data Stream 7.4 on port 1433: pre-login, LOGIN7 with
//! SQL Server authentication, a SQL batch, the token stream back. Windows
//! and federated authentication are not implemented; a server that
//! requires encryption is told so, because TLS is the transport
//! capability's, per ADR-0033.
//!
//! Rows are artefacts and this transport claims none of them, per ADR-0024:
//! the atomic claim a database has, `WITH (UPDLOCK, READPAST)`, only holds
//! inside a transaction, and the flow here opens and closes its connection
//! inside one receive, so there is no transaction to hold it across the
//! Stream's lifetime. Until the claim is written, a Receive Location is
//! one consumer of its query, and the query itself — a status column, a
//! `DELETE … OUTPUT deleted.*` — is what keeps a row from arriving twice.
//!
//! The origin URI carries what the row knew: `mssql://server/orders?row=41`.
//! A send target is `mssql://host:1433/<database>/<table>/<column>`,
//! `host:1433/<database>/<table>/<column>`, or `<table>/<column>` on the
//! configured server and database.
//!
//! Nothing here touches a socket. Each side of a conversation is a function
//! from what arrived to what is sent and what is known next, so that what
//! the two sides make of each other can be stated and proved
//! (`conversation.rs`); whoever holds the sockets carries the bytes. What
//! each operation promises of any input, whoever wrote it, stands in `laws`.

pub mod arrived;
pub mod batch;
pub mod binary;
pub mod client;
pub mod column;
pub mod conversation;
pub mod error;
pub mod insert;
pub mod laws;
pub mod login;
pub mod number;
pub mod prelogin;
pub mod session;
pub mod target;
pub mod text;
pub mod token;
pub mod wire;

use std::time::Duration;

use vstd::prelude::*;

pub use arrived::Arrived;
pub use client::{quote_identifier, quote_literal, Client, QueryResult};
pub use login::Login;
pub use session::{Answer, Event, Session};

use arrived::ArrivedView;
use client::QueryResultView;
use error::{protocol_error, Fault, TransportError};
use insert::write_insert;
use login::LoginView;
use target::Target;

verus! {

/// What a Receive Location runs unless told otherwise.
pub const DEFAULT_QUERY: &'static str = "SELECT id, payload FROM inbox ORDER BY id";

/// The database the loopback pair agrees on.
const LOOPBACK_DATABASE: &'static str = "probe";

/// The user of the loopback pair, whose login the far end takes as it comes.
const LOOPBACK_USER: &'static str = "xmip";

/// The table and column the loopback pair inserts the payload into.
pub const LOOPBACK_TARGET: &'static str = "probe/payload";

/// A transport to one server: where it is, who logs in, and what is run.
#[derive(Debug)]
pub struct MssqlTransport {
    server: String,
    database: String,
    user: String,
    password: Option<String>,
    query: String,
    timeout: Option<Duration>,
}

/// What a [`MssqlTransport`] is configured with.
#[verifier::ext_equal]
pub struct TransportView {
    pub server: Seq<char>,
    pub database: Seq<char>,
    pub user: Seq<char>,
    pub password: Option<Seq<char>>,
    pub query: Seq<char>,
    pub timeout: Option<Duration>,
}

impl View for MssqlTransport {
    type V = TransportView;

    closed spec fn view(&self) -> TransportView {
        TransportView {
            server: self.server@,
            database: self.database@,
            user: self.user@,
            password: self.password.deep_view(),
            query: self.query@,
            timeout: self.timeout,
        }
    }
}

impl Clone for MssqlTransport {
    fn clone(&self) -> (copy: Self)
        ensures
            copy@ == self@,
    {
        MssqlTransport {
            server: self.server.clone(),
            database: self.database.clone(),
            user: self.user.clone(),
            password: match &self.password {
                Some(password) => Some(password.clone()),
                None => None,
            },
            query: self.query.clone(),
            timeout: self.timeout,
        }
    }
}

/// The login that a transport gives: its user, and its password or an empty
/// one.
pub open spec fn login_given(transport: TransportView) -> LoginView {
    LoginView {
        user: transport.user,
        password: match transport.password {
            Some(password) => password,
            None => Seq::empty(),
        },
    }
}

/// What a send runs, and where.
#[derive(Debug, PartialEq, Eq)]
pub struct Outgoing {
    pub server: String,
    pub database: String,
    pub sql: String,
}

/// What an [`Outgoing`] says.
#[verifier::ext_equal]
pub struct OutgoingView {
    pub server: Seq<char>,
    pub database: Seq<char>,
    pub sql: Seq<char>,
}

impl View for Outgoing {
    type V = OutgoingView;

    open spec fn view(&self) -> OutgoingView {
        OutgoingView { server: self.server@, database: self.database@, sql: self.sql@ }
    }
}

impl DeepView for Outgoing {
    type V = OutgoingView;

    open spec fn deep_view(&self) -> OutgoingView {
        self@
    }
}

/// What sending `bytes` to `target` runs, and where, or why the target is
/// not one.
pub open spec fn outgoing_to(transport: TransportView, target: Seq<char>, bytes: Seq<u8>) -> Result<
    OutgoingView,
    Fault,
> {
    match target::resolved(transport.server, transport.database, target) {
        Ok(place) => Ok(
            OutgoingView {
                server: place.server,
                database: place.database,
                sql: insert::insert_statement(place.table, place.column, bytes),
            },
        ),
        Err(fault) => Err(fault),
    }
}

/// The name of the row at `index`: its first column, or the index where that
/// is null or there is none.
pub open spec fn row_name(row: Seq<Option<Seq<char>>>, index: int) -> Seq<char> {
    if row.len() > 0 && row[0] is Some {
        row[0]->0
    } else {
        number::decimal(index)
    }
}

/// The value of a row: its last column, or nothing where that is null or
/// there is none.
pub open spec fn row_value(row: Seq<Option<Seq<char>>>) -> Seq<char> {
    if row.len() > 0 && row.last() is Some {
        row.last()->0
    } else {
        Seq::empty()
    }
}

/// The Stream that the row at `index` of a result is.
pub open spec fn stream_of(
    transport: TransportView,
    row: Seq<Option<Seq<char>>>,
    index: int,
) -> ArrivedView {
    ArrivedView {
        origin_uri: "mssql://"@ + transport.server + "/"@ + transport.database + "?row="@
            + row_name(row, index),
        bytes: binary::value_bytes(row_value(row)),
    }
}

/// The Streams that a result is, one to a row.
pub open spec fn streams_of(transport: TransportView, result: QueryResultView) -> Seq<
    ArrivedView,
> {
    Seq::new(result.rows.len(), |i: int| stream_of(transport, result.rows[i], i))
}

/// What Streams say.
pub open spec fn arrived_view(streams: Seq<Arrived>) -> Seq<ArrivedView> {
    Seq::new(streams.len(), |i: int| streams[i]@)
}

/// `text`, or an empty one where there is none.
fn or_empty(text: &Option<String>) -> (owned: String)
    ensures
        owned@ == (match text.deep_view() {
            Some(text) => text,
            None => Seq::empty(),
        }),
{
    match text {
        Some(text) => text.clone(),
        None => String::new(),
    }
}

impl MssqlTransport {
    /// Speak to the server at `server`, on `database`, as `user`.
    #[must_use]
    pub fn new(server: &str, database: &str, user: &str) -> (transport: Self)
        ensures
            transport@ == (TransportView {
                server: server@,
                database: database@,
                user: user@,
                password: None,
                query: DEFAULT_QUERY@,
                timeout: None,
            }),
    {
        MssqlTransport {
            server: server.to_owned(),
            database: database.to_owned(),
            user: user.to_owned(),
            password: None,
            query: DEFAULT_QUERY.to_owned(),
            timeout: None,
        }
    }

    /// Both ends on this machine: an ephemeral local port, a login the far
    /// end takes as it comes, giving up after `timeout`.
    #[must_use]
    pub fn loopback(timeout: Duration) -> (transport: Self)
        ensures
            transport@ == (TransportView {
                server: "127.0.0.1:0"@,
                database: "probe"@,
                user: "xmip"@,
                password: None,
                query: DEFAULT_QUERY@,
                timeout: Some(timeout),
            }),
    {
        MssqlTransport::new("127.0.0.1:0", LOOPBACK_DATABASE, LOOPBACK_USER).timing_out_after(
            timeout,
        )
    }

    /// The password the login carries; empty without one.
    #[must_use]
    pub fn with_password(self, password: &str) -> (transport: Self)
        ensures
            transport@ == (TransportView { password: Some(password@), ..self@ }),
    {
        let mut transport: MssqlTransport = self;
        transport.password = Some(password.to_owned());
        transport
    }

    /// The query a receive runs: the first column is the row's name, the
    /// last is the Stream.
    #[must_use]
    pub fn with_query(self, query: &str) -> (transport: Self)
        ensures
            transport@ == (TransportView { query: query@, ..self@ }),
    {
        let mut transport: MssqlTransport = self;
        transport.query = query.to_owned();
        transport
    }

    /// Give up on a server that stops mid-message.
    #[must_use]
    pub fn timing_out_after(self, timeout: Duration) -> (transport: Self)
        ensures
            transport@ == (TransportView { timeout: Some(timeout), ..self@ }),
    {
        let mut transport: MssqlTransport = self;
        transport.timeout = Some(timeout);
        transport
    }

    /// This transport, speaking to the server at `server` instead.
    #[must_use]
    pub fn facing(&self, server: &str) -> (transport: Self)
        ensures
            transport@ == (TransportView { server: server@, ..self@ }),
    {
        let mut transport: MssqlTransport = self.clone();
        transport.server = server.to_owned();
        transport
    }

    /// What this transport is called.
    #[must_use]
    pub fn name(&self) -> (name: &'static str)
        ensures
            name@ == "mssql"@,
    {
        "mssql"
    }

    /// The server this transport speaks to.
    #[must_use]
    pub fn server(&self) -> (server: &str)
        ensures
            server@ == self@.server,
    {
        self.server.as_str()
    }

    /// The database this transport logs in to.
    #[must_use]
    pub fn database(&self) -> (database: &str)
        ensures
            database@ == self@.database,
    {
        self.database.as_str()
    }

    /// The query a receive runs.
    #[must_use]
    pub fn query(&self) -> (query: &str)
        ensures
            query@ == self@.query,
    {
        self.query.as_str()
    }

    /// How long a peer may stop mid-message.
    #[must_use]
    pub fn timeout(&self) -> (timeout: Option<Duration>)
        ensures
            timeout == self@.timeout,
    {
        self.timeout
    }

    /// The login this transport gives.
    #[must_use]
    pub fn login(&self) -> (login: Login)
        ensures
            login@ == login_given(self@),
    {
        Login::new(self.user.as_str(), or_empty(&self.password).as_str())
    }

    /// The login this transport demands of a client: its own where it has a
    /// password, and none where it has not.
    #[must_use]
    pub fn expected(&self) -> (login: Option<Login>)
        ensures
            match self@.password {
                Some(_) => login matches Some(login) && login@ == login_given(self@),
                None => login is None,
            },
    {
        match self.password {
            Some(_) => Some(self.login()),
            None => None,
        }
    }

    /// Where a target names the server, database, table and column, or
    /// some suffix of them on what this transport is configured with; an
    /// error where it names neither three nor two.
    pub fn resolve(&self, target: &str) -> (place: Result<Target, TransportError>)
        ensures
            error::outcome(place) == target::resolved(self@.server, self@.database, target@),
    {
        target::resolve(self.server.as_str(), self.database.as_str(), target)
    }

    /// What sending `bytes` to `target` runs, and where: one INSERT of one
    /// column of one row, text as text, anything else as a binary literal. An
    /// error where the target is not one.
    pub fn outgoing(&self, target: &str, bytes: &[u8]) -> (outgoing: Result<
        Outgoing,
        TransportError,
    >)
        ensures
            error::outcome(outgoing) == outgoing_to(self@, target@, bytes@),
    {
        let place: Target = self.resolve(target)?;
        let sql: String = write_insert(place.table.as_str(), place.column.as_str(), bytes);
        Ok(Outgoing { server: place.server, database: place.database, sql })
    }

    /// The Streams that `result` is, one to a row: the first column names it,
    /// the index where that is null; the last column is what it carries.
    #[must_use]
    pub fn arrivals(&self, result: &QueryResult) -> (streams: Vec<Arrived>)
        ensures
            arrived_view(streams@) == streams_of(self@, result@),
    {
        let mut streams: Vec<Arrived> = Vec::new();
        let mut i: usize = 0;
        while i < result.rows.len()
            invariant
                i <= result.rows.len(),
                arrived_view(streams@) == streams_of(self@, result@).take(i as int),
            decreases result.rows.len() - i,
        {
            let ghost before = streams@;
            let stream: Arrived = self.stream(result.rows[i].as_slice(), i);
            streams.push(stream);
            assert(arrived_view(streams@) =~= arrived_view(before).push(stream@));
            assert(arrived_view(streams@) =~= streams_of(self@, result@).take(i + 1));
            i = i + 1;
        }
        assert(arrived_view(streams@) =~= streams_of(self@, result@));
        streams
    }

    /// The Stream that the row at `index` of a result is.
    fn stream(&self, row: &[Option<String>], index: usize) -> (stream: Arrived)
        ensures
            stream@ == stream_of(self@, token::row_view(row@), index as int),
    {
        let ghost told = token::row_view(row@);
        let mut name: String = number::unsigned_text(index as u64);
        let mut value: String = String::new();
        if row.len() > 0 {
            assert(told[0] == row@[0].deep_view());
            assert(told.last() == row@[row@.len() - 1].deep_view());
            if let Some(first) = &row[0] {
                name = first.clone();
            }
            value = or_empty(&row[row.len() - 1]);
        }
        let mut from: String = "mssql://".to_owned();
        from.append(self.server.as_str());
        from.append("/");
        from.append(self.database.as_str());
        from.append("?row=");
        from.append(name.as_str());
        Arrived::new(from, binary::column_bytes(value))
    }

    /// The Stream a far end took; an error where the client closed without
    /// inserting.
    pub fn taken(arrived: Option<Arrived>) -> (stream: Result<Arrived, TransportError>)
        ensures
            match arrived {
                Some(one) => stream == Ok::<Arrived, TransportError>(one),
                None => stream matches Err(error) && error@ == error::fault(
                    "the client closed without inserting"@,
                ),
            },
    {
        match arrived {
            Some(one) => Ok(one),
            None => Err(protocol_error("the client closed without inserting")),
        }
    }
}

} // verus!
