//! Where a send goes: the server, the database, the table and the column
//! that a target names, in full or on what a transport is configured with.

use vstd::prelude::*;
use vstd::slice::slice_subrange;

use crate::error;
use crate::error::{Fault, TransportError};
use crate::text;

verus! {

/// Where a send goes.
#[derive(Debug, PartialEq, Eq)]
pub struct Target {
    pub server: String,
    pub database: String,
    pub table: String,
    pub column: String,
}

/// What a [`Target`] says.
#[verifier::ext_equal]
pub struct TargetView {
    pub server: Seq<char>,
    pub database: Seq<char>,
    pub table: Seq<char>,
    pub column: Seq<char>,
}

impl View for Target {
    type V = TargetView;

    open spec fn view(&self) -> TargetView {
        TargetView {
            server: self.server@,
            database: self.database@,
            table: self.table@,
            column: self.column@,
        }
    }
}

impl DeepView for Target {
    type V = TargetView;

    open spec fn deep_view(&self) -> TargetView {
        self@
    }
}

/// What the `Debug` form of a text is: the text in double quotes, what does
/// not print escaped.
pub uninterp spec fn debug_form(text: Seq<char>) -> Seq<char>;

/// Writes `text` with `format!` in its `Debug` form, which the name stands
/// for: which characters are escaped, and how, is left to it.
#[verifier::external_body]
fn debugged(text: &str) -> (form: String)
    ensures
        form@ == debug_form(text@),
{
    format!("{text:?}")
}

/// `s` up to the first `c`, all of it where there is none.
pub open spec fn up_to(s: Seq<char>, c: char) -> Seq<char>
    decreases s.len(),
{
    if s.len() == 0 || s[0] == c {
        Seq::empty()
    } else {
        seq![s[0]] + up_to(s.skip(1), c)
    }
}

/// What stands behind the first `c` of `s`, nothing where there is none.
pub open spec fn behind(s: Seq<char>, c: char) -> Seq<char> {
    if up_to(s, c).len() < s.len() {
        s.skip(up_to(s, c).len() as int + 1)
    } else {
        Seq::empty()
    }
}

/// The segments of `path` between its slashes.
pub open spec fn segments(path: Seq<char>) -> Seq<Seq<char>>
    decreases path.len(),
{
    let first = up_to(path, '/');
    if first.len() < path.len() {
        seq![first] + segments(path.skip(first.len() as int + 1))
    } else {
        seq![path]
    }
}

/// What follows `prefix` where `s` begins with it.
pub open spec fn after_prefix(s: Seq<char>, prefix: Seq<char>) -> Option<Seq<char>> {
    if prefix.is_prefix_of(s) {
        Some(s.skip(prefix.len() as int))
    } else {
        None
    }
}

/// What follows the scheme where a target has one of the two.
pub open spec fn after_scheme(target: Seq<char>) -> Option<Seq<char>> {
    match after_prefix(target, "mssql://"@) {
        Some(rest) => Some(rest),
        None => after_prefix(target, "sqlserver://"@),
    }
}

/// The server that `target` is on and the path to follow there: the server
/// that stands behind a scheme, or ahead of the path with a port, or `server`
/// where it names none.
pub open spec fn located(server: Seq<char>, target: Seq<char>) -> (Seq<char>, Seq<char>) {
    match after_scheme(target) {
        Some(rest) => (up_to(rest, '/'), behind(rest, '/')),
        None => if up_to(target, '/').len() < target.len() && up_to(target, '/').contains(':') {
            (up_to(target, '/'), behind(target, '/'))
        } else {
            (server, target)
        },
    }
}

/// The failure of a target, here in its `Debug` form, that names neither
/// three parts nor two.
pub open spec fn no_target(form: Seq<char>) -> Fault {
    error::fault(form + " is not database/table/column or table/column"@)
}

/// Where `target` goes on `server` and `database`, or why it is no target.
pub open spec fn resolved(server: Seq<char>, database: Seq<char>, target: Seq<char>) -> Result<
    TargetView,
    Fault,
> {
    let (peer, path) = located(server, target);
    let parts = segments(path);
    if parts.len() == 3 {
        Ok(TargetView { server: peer, database: parts[0], table: parts[1], column: parts[2] })
    } else if parts.len() == 2 {
        Ok(TargetView { server: peer, database, table: parts[0], column: parts[1] })
    } else {
        Err(no_target(debug_form(target)))
    }
}

/// Where the first `c` of `s` stands, its length where there is none.
fn find(s: &[char], c: char) -> (at: usize)
    ensures
        at == up_to(s@, c).len(),
        at <= s@.len(),
        s@.take(at as int) == up_to(s@, c),
{
    let mut i: usize = 0;
    assert(s@.skip(0) =~= s@);
    assert(s@.take(0) + up_to(s@, c) =~= up_to(s@, c));
    while i < s.len() && s[i] != c
        invariant
            i <= s.len(),
            s@.take(i as int) + up_to(s@.skip(i as int), c) == up_to(s@, c),
        decreases s.len() - i,
    {
        proof {
            let rest = s@.skip(i as int);
            assert(rest.skip(1) =~= s@.skip(i + 1));
            assert(s@.take(i + 1) + up_to(rest.skip(1), c) =~= s@.take(i as int) + (seq![rest[0]]
                + up_to(rest.skip(1), c)));
        }
        i = i + 1;
    }
    assert(s@.take(i as int) + Seq::empty() =~= s@.take(i as int));
    i
}

/// True when `s` holds `c`.
fn holds(s: &[char], c: char) -> (yes: bool)
    ensures
        yes == s@.contains(c),
{
    let mut i: usize = 0;
    while i < s.len()
        invariant
            i <= s.len(),
            forall|j: int| 0 <= j < i ==> s@[j] != c,
        decreases s.len() - i,
    {
        if s[i] == c {
            assert(s@[i as int] == c);
            return true;
        }
        i = i + 1;
    }
    false
}

/// What follows `prefix` where `s` begins with it.
fn strip<'a>(s: &'a [char], prefix: &str) -> (rest: Option<&'a [char]>)
    ensures
        match rest {
            Some(rest) => after_prefix(s@, prefix@) == Some(rest@),
            None => after_prefix(s@, prefix@) is None,
        },
{
    let letters: Vec<char> = text::chars_of(prefix);
    if s.len() < letters.len() {
        return None;
    }
    let head: &[char] = slice_subrange(s, 0, letters.len());
    assert(s@.subrange(0, prefix@.len() as int) =~= s@.take(prefix@.len() as int));
    if text::spells(head, prefix) {
        Some(slice_subrange(s, letters.len(), s.len()))
    } else {
        None
    }
}

/// What the texts of `parts` are.
spec fn parts_view(parts: Seq<String>) -> Seq<Seq<char>> {
    Seq::new(parts.len(), |i: int| parts[i]@)
}

/// The segments of `path` between its slashes.
fn split(path: &[char]) -> (parts: Vec<String>)
    ensures
        parts_view(parts@) == segments(path@),
{
    let mut parts: Vec<String> = Vec::new();
    let mut rest: &[char] = path;
    assert(parts_view(parts@) + segments(path@) =~= segments(path@));
    loop
        invariant
            parts_view(parts@) + segments(rest@) == segments(path@),
        decreases rest.len(),
    {
        let ghost before = parts@;
        let ghost was = rest@;
        let at: usize = find(rest, '/');
        let part: String = text::text_of(slice_subrange(rest, 0, at));
        parts.push(part);
        assert(part@ =~= up_to(was, '/'));
        assert(parts_view(parts@) =~= parts_view(before).push(part@));
        if at == rest.len() {
            assert(part@ =~= was);
            assert(parts_view(parts@) =~= parts_view(before) + seq![was]);
            return parts;
        }
        rest = slice_subrange(rest, at + 1, rest.len());
        assert(parts_view(parts@) + segments(rest@) =~= parts_view(before) + (seq![part@]
            + segments(rest@)));
    }
}

/// What stands ahead of the first slash of `s`, and what stands behind it.
fn split_once(s: &[char]) -> (halves: (&[char], &[char]))
    ensures
        halves.0@ == up_to(s@, '/'),
        halves.1@ == behind(s@, '/'),
{
    let at: usize = find(s, '/');
    if at < s.len() {
        (slice_subrange(s, 0, at), slice_subrange(s, at + 1, s.len()))
    } else {
        (s, slice_subrange(s, s.len(), s.len()))
    }
}

/// The failure of a target, here in its `Debug` form, that names neither
/// three parts nor two.
#[must_use]
pub fn refusal(form: String) -> (error: TransportError)
    ensures
        error@ == no_target(form@),
{
    let mut message: String = form;
    message.append(" is not database/table/column or table/column");
    TransportError::permanent(message.as_str())
}

/// Where `target` goes on `server` and `database`; an error where it names
/// neither a database, a table and a column nor a table and a column.
pub fn resolve(server: &str, database: &str, target: &str) -> (place: Result<
    Target,
    TransportError,
>)
    ensures
        error::outcome(place) == resolved(server@, database@, target@),
{
    let chars: Vec<char> = text::chars_of(target);
    let all: &[char] = chars.as_slice();
    let behind_scheme: Option<&[char]> = match strip(all, "mssql://") {
        Some(rest) => Some(rest),
        None => strip(all, "sqlserver://"),
    };
    let (peer, path): (String, &[char]) = match behind_scheme {
        Some(rest) => {
            let (authority, path): (&[char], &[char]) = split_once(rest);
            (text::text_of(authority), path)
        },
        None => {
            let (authority, path): (&[char], &[char]) = split_once(all);
            if authority.len() < all.len() && holds(authority, ':') {
                (text::text_of(authority), path)
            } else {
                (server.to_owned(), all)
            }
        },
    };
    let parts: Vec<String> = split(path);
    assert(parts_view(parts@).len() == parts@.len());
    if parts.len() == 3 {
        Ok(
            Target {
                server: peer,
                database: parts[0].clone(),
                table: parts[1].clone(),
                column: parts[2].clone(),
            },
        )
    } else if parts.len() == 2 {
        Ok(
            Target {
                server: peer,
                database: database.to_owned(),
                table: parts[0].clone(),
                column: parts[1].clone(),
            },
        )
    } else {
        Err(refusal(debugged(target)))
    }
}

/// Text without a `c` is all there is up to one, whatever follows it.
proof fn lemma_up_to(text: Seq<char>, c: char, rest: Seq<char>)
    requires
        !text.contains(c),
    ensures
        up_to(text, c) == text,
        up_to(text + (seq![c] + rest), c) == text,
        behind(text + (seq![c] + rest), c) == rest,
    decreases text.len(),
{
    let s = text + (seq![c] + rest);
    if text.len() == 0 {
        assert(s =~= seq![c] + rest);
        assert(text =~= Seq::empty());
        assert(s.skip(1) =~= rest);
    } else {
        assert(text[0] != c);
        assert forall|i: int| 0 <= i < text.skip(1).len() implies text.skip(1)[i] != c by {
            assert(text.skip(1)[i] == text[i + 1]);
        }
        lemma_up_to(text.skip(1), c, rest);
        assert(s.skip(1) =~= text.skip(1) + (seq![c] + rest));
        assert(seq![text[0]] + text.skip(1) =~= text);
        assert(s.skip(text.len() as int + 1) =~= rest);
    }
}

/// `table` and `column` with a slash between them.
pub open spec fn two_segments(table: Seq<char>, column: Seq<char>) -> Seq<char> {
    table + (seq!['/'] + column)
}

/// `database`, `table` and `column` with a slash between them.
pub open spec fn three_segments(
    database: Seq<char>,
    table: Seq<char>,
    column: Seq<char>,
) -> Seq<char> {
    database + (seq!['/'] + two_segments(table, column))
}

/// A path of two or three segments without a slash is those segments.
proof fn lemma_segments(database: Seq<char>, table: Seq<char>, column: Seq<char>)
    requires
        !database.contains('/'),
        !table.contains('/'),
        !column.contains('/'),
    ensures
        segments(two_segments(table, column)) == seq![table, column],
        segments(three_segments(database, table, column)) == seq![database, table, column],
{
    let two = two_segments(table, column);
    let three = three_segments(database, table, column);
    lemma_up_to(column, '/', Seq::empty());
    assert(segments(column) == seq![column]);
    lemma_up_to(table, '/', column);
    assert(two.skip(table.len() as int + 1) =~= column);
    assert(segments(two) =~= seq![table, column]);
    lemma_up_to(database, '/', two);
    assert(three.skip(database.len() as int + 1) =~= two);
    assert(segments(three) =~= seq![database, table, column]);
}

/// A target behind one of the two schemes is on the server it names, and on
/// the configured database where it names none.
pub proof fn lemma_scheme_names_the_server(
    server: Seq<char>,
    configured: Seq<char>,
    host: Seq<char>,
    database: Seq<char>,
    table: Seq<char>,
    column: Seq<char>,
    scheme: Seq<char>,
)
    requires
        scheme == "mssql://"@ || scheme == "sqlserver://"@,
        !host.contains('/'),
        !database.contains('/'),
        !table.contains('/'),
        !column.contains('/'),
    ensures
        resolved(
            server,
            configured,
            scheme + (host + (seq!['/'] + three_segments(database, table, column))),
        ) == Ok::<TargetView, Fault>(TargetView { server: host, database, table, column }),
        resolved(
            server,
            configured,
            scheme + (host + (seq!['/'] + two_segments(table, column))),
        ) == Ok::<TargetView, Fault>(
            TargetView { server: host, database: configured, table, column },
        ),
{
    let three = three_segments(database, table, column);
    let two = two_segments(table, column);
    lemma_after_scheme(scheme, host + (seq!['/'] + three));
    lemma_after_scheme(scheme, host + (seq!['/'] + two));
    lemma_up_to(host, '/', three);
    lemma_up_to(host, '/', two);
    lemma_segments(database, table, column);
}

/// What stands behind one of the two schemes is read behind it.
proof fn lemma_after_scheme(scheme: Seq<char>, rest: Seq<char>)
    requires
        scheme == "mssql://"@ || scheme == "sqlserver://"@,
    ensures
        after_scheme(scheme + rest) == Some(rest),
{
    reveal_strlit("mssql://");
    reveal_strlit("sqlserver://");
    let s = scheme + rest;
    assert(s.skip(scheme.len() as int) =~= rest);
    assert(s.subrange(0, scheme.len() as int) =~= scheme);
    assert(scheme.is_prefix_of(s));
    if scheme == "sqlserver://"@ {
        assert(s[1] == 'q');
        assert("mssql://"@[1] == 's');
        assert(!"mssql://"@.is_prefix_of(s));
    }
}

/// A scheme's two slashes follow each other, so text whose first slash is
/// followed by another character has none.
proof fn lemma_no_scheme(head: Seq<char>, rest: Seq<char>)
    requires
        !head.contains('/'),
        rest.len() > 0,
        rest[0] != '/',
    ensures
        after_scheme(head + (seq!['/'] + rest)) is None,
{
    reveal_strlit("mssql://");
    reveal_strlit("sqlserver://");
    let s = head + (seq!['/'] + rest);
    assert(s[head.len() as int] == '/');
    assert(s[head.len() as int + 1] == rest[0]);
    assert(forall|i: int| 0 <= i < head.len() ==> s[i] == head[i] && head.contains(head[i]));
    if "mssql://"@.is_prefix_of(s) {
        assert(s[6] == "mssql://"@[6] && s[7] == "mssql://"@[7]);
        assert(s[0] == "mssql://"@[0] && s[1] == "mssql://"@[1] && s[2] == "mssql://"@[2] && s[3]
            == "mssql://"@[3] && s[4] == "mssql://"@[4] && s[5] == "mssql://"@[5]);
        assert(head.len() == 6);
        assert(false);
    }
    if "sqlserver://"@.is_prefix_of(s) {
        assert(s[10] == "sqlserver://"@[10] && s[11] == "sqlserver://"@[11]);
        assert(forall|i: int| 0 <= i < 10 ==> s[i] == #[trigger] "sqlserver://"@[i]);
        assert("sqlserver://"@[0] != '/' && "sqlserver://"@[1] != '/' && "sqlserver://"@[2] != '/'
            && "sqlserver://"@[3] != '/' && "sqlserver://"@[4] != '/' && "sqlserver://"@[5] != '/'
            && "sqlserver://"@[6] != '/' && "sqlserver://"@[7] != '/' && "sqlserver://"@[8] != '/'
            && "sqlserver://"@[9] != '/');
        assert(head.len() == 10);
        assert(false);
    }
}

/// A target that begins with a server and its port is on that server. The
/// database is not empty: `mssql:` ahead of an empty one reads as a scheme.
pub proof fn lemma_port_names_the_server(
    server: Seq<char>,
    configured: Seq<char>,
    host: Seq<char>,
    database: Seq<char>,
    table: Seq<char>,
    column: Seq<char>,
)
    requires
        host.contains(':'),
        !host.contains('/'),
        database.len() > 0,
        !database.contains('/'),
        !table.contains('/'),
        !column.contains('/'),
    ensures
        resolved(
            server,
            configured,
            host + (seq!['/'] + three_segments(database, table, column)),
        ) == Ok::<TargetView, Fault>(TargetView { server: host, database, table, column }),
{
    let three = three_segments(database, table, column);
    assert(three[0] == database[0]);
    assert(database.contains(database[0]));
    lemma_no_scheme(host, three);
    lemma_up_to(host, '/', three);
    lemma_segments(database, table, column);
}

/// A table and a column are on the configured server and database. A table
/// with a colon reads as a server.
pub proof fn lemma_table_and_column_are_configured(
    server: Seq<char>,
    configured: Seq<char>,
    table: Seq<char>,
    column: Seq<char>,
)
    requires
        !table.contains(':'),
        !table.contains('/'),
        !column.contains('/'),
    ensures
        resolved(server, configured, two_segments(table, column)) == Ok::<TargetView, Fault>(
            TargetView { server, database: configured, table, column },
        ),
{
    let two = two_segments(table, column);
    reveal_strlit("mssql://");
    reveal_strlit("sqlserver://");
    lemma_up_to(table, '/', column);
    lemma_segments(Seq::empty(), table, column);
    assert(forall|i: int| 0 <= i < table.len() ==> two[i] == table[i] && table.contains(table[i]));
    assert(two[table.len() as int] == '/');
    if "mssql://"@.is_prefix_of(two) {
        assert(two[5] == "mssql://"@[5] && two[0] == "mssql://"@[0] && two[1] == "mssql://"@[1]
            && two[2] == "mssql://"@[2] && two[3] == "mssql://"@[3] && two[4] == "mssql://"@[4]);
        assert(table.len() > 5);
        assert(false);
    }
    if "sqlserver://"@.is_prefix_of(two) {
        assert(forall|i: int| 0 <= i < 10 ==> two[i] == #[trigger] "sqlserver://"@[i]);
        assert("sqlserver://"@[0] != '/' && "sqlserver://"@[1] != '/' && "sqlserver://"@[2] != '/'
            && "sqlserver://"@[3] != '/' && "sqlserver://"@[4] != '/' && "sqlserver://"@[5] != '/'
            && "sqlserver://"@[6] != '/' && "sqlserver://"@[7] != '/' && "sqlserver://"@[8] != '/');
        assert("sqlserver://"@[9] == ':');
        assert(table.len() > 9);
        assert(false);
    }
    assert(after_scheme(two) is None);
}

} // verus!
