//! Where a target goes.

use vstd::prelude::*;

use crate::error::Fault;
use crate::target;
use crate::target::TargetView;

verus! {

/// `parts` with a slash between each and the next.
pub open spec fn slashed(parts: Seq<Seq<char>>) -> Seq<char>
    decreases parts.len(),
{
    if parts.len() == 0 {
        Seq::empty()
    } else if parts.len() == 1 {
        parts[0]
    } else {
        parts[0] + (seq!['/'] + slashed(parts.skip(1)))
    }
}

/// Where a path of `parts` goes: a database, a table and a column, or a table
/// and a column on the database that is configured; any other number of parts
/// is no target, which the failure names in its `Debug` form.
pub open spec fn goes_to(
    server: Seq<char>,
    configured: Seq<char>,
    parts: Seq<Seq<char>>,
    target: Seq<char>,
) -> Result<TargetView, Fault> {
    if parts.len() == 3 {
        Ok(TargetView { server, database: parts[0], table: parts[1], column: parts[2] })
    } else if parts.len() == 2 {
        Ok(TargetView { server, database: configured, table: parts[0], column: parts[1] })
    } else {
        Err(
            Fault {
                message: target::debug_form(target)
                    + " is not database/table/column or table/column"@,
                retryable: false,
            },
        )
    }
}

/// Text without a slash is all there is up to one.
proof fn lemma_up_to_a_slash(said: Seq<char>, rest: Seq<char>)
    requires
        !said.contains('/'),
    ensures
        target::up_to(said, '/') == said,
        target::up_to(said + (seq!['/'] + rest), '/') == said,
        target::behind(said, '/') == Seq::<char>::empty(),
        target::behind(said + (seq!['/'] + rest), '/') == rest,
    decreases said.len(),
{
    let s = said + (seq!['/'] + rest);
    if said.len() == 0 {
        assert(s =~= seq!['/'] + rest);
        assert(said =~= Seq::empty());
        assert(s.skip(1) =~= rest);
    } else {
        assert(said[0] != '/');
        assert forall|i: int| 0 <= i < said.skip(1).len() implies said.skip(1)[i] != '/' by {
            assert(said.skip(1)[i] == said[i + 1]);
        }
        lemma_up_to_a_slash(said.skip(1), rest);
        assert(s.skip(1) =~= said.skip(1) + (seq!['/'] + rest));
        assert(seq![said[0]] + said.skip(1) =~= said);
        assert(s.skip(said.len() as int + 1) =~= rest);
    }
}

/// A path is the parts between its slashes, however many and however long.
pub proof fn lemma_a_path_is_its_parts(parts: Seq<Seq<char>>)
    requires
        parts.len() > 0,
        forall|i: int| 0 <= i < parts.len() ==> !(#[trigger] parts[i]).contains('/'),
    ensures
        target::segments(slashed(parts)) == parts,
    decreases parts.len(),
{
    assert(!parts[0].contains('/'));
    if parts.len() == 1 {
        lemma_up_to_a_slash(parts[0], Seq::empty());
        assert(seq![parts[0]] =~= parts);
    } else {
        let others = parts.skip(1);
        assert forall|i: int| 0 <= i < others.len() implies !(#[trigger] others[i]).contains(
            '/',
        ) by {
            assert(others[i] == parts[i + 1]);
        }
        lemma_a_path_is_its_parts(others);
        lemma_up_to_a_slash(parts[0], slashed(others));
        let path = slashed(parts);
        assert(path.skip(parts[0].len() as int + 1) =~= slashed(others));
        assert(seq![parts[0]] + others =~= parts);
    }
}

/// A target behind either scheme goes to the server it names, and to the path
/// behind that; one that names a server alone is no target.
pub proof fn lemma_a_scheme_names_the_server(
    server: Seq<char>,
    configured: Seq<char>,
    scheme: Seq<char>,
    host: Seq<char>,
    parts: Seq<Seq<char>>,
)
    requires
        scheme == "mssql://"@ || scheme == "sqlserver://"@,
        !host.contains('/'),
        parts.len() > 0,
        forall|i: int| 0 <= i < parts.len() ==> !(#[trigger] parts[i]).contains('/'),
    ensures
        ({
            let whole = scheme + (host + (seq!['/'] + slashed(parts)));
            target::resolved(server, configured, whole) == goes_to(host, configured, parts, whole)
        }),
        target::resolved(server, configured, scheme + host) == goes_to(
            host,
            configured,
            Seq::empty(),
            scheme + host,
        ),
{
    lemma_a_path_is_its_parts(parts);
    lemma_up_to_a_slash(host, slashed(parts));
    lemma_behind_a_scheme(scheme, host + (seq!['/'] + slashed(parts)));
    lemma_behind_a_scheme(scheme, host);
    let empty = Seq::<char>::empty();
    lemma_up_to_a_slash(empty, empty);
    assert(target::segments(empty).len() == 1);
}

/// What stands behind a scheme.
proof fn lemma_behind_a_scheme(scheme: Seq<char>, rest: Seq<char>)
    requires
        scheme == "mssql://"@ || scheme == "sqlserver://"@,
    ensures
        target::after_scheme(scheme + rest) == Some(rest),
{
    reveal_strlit("mssql://");
    reveal_strlit("sqlserver://");
    let s = scheme + rest;
    assert(s.skip(scheme.len() as int) =~= rest);
    assert(s.subrange(0, scheme.len() as int) =~= scheme);
    assert(scheme.is_prefix_of(s));
    if scheme == "sqlserver://"@ {
        assert(s[1] == 'q');
        assert("mssql://"@[1] == 's');
        assert(!"mssql://"@.is_prefix_of(s));
    }
}

/// A target without a scheme whose first part holds a colon, ahead of a
/// slash, goes to the server that part names, and to the path behind it.
pub proof fn lemma_a_colon_names_the_server(
    server: Seq<char>,
    configured: Seq<char>,
    host: Seq<char>,
    parts: Seq<Seq<char>>,
)
    requires
        host.contains(':'),
        !host.contains('/'),
        parts.len() > 0,
        forall|i: int| 0 <= i < parts.len() ==> !(#[trigger] parts[i]).contains('/'),
        !"mssql://"@.is_prefix_of(host + (seq!['/'] + slashed(parts))),
        !"sqlserver://"@.is_prefix_of(host + (seq!['/'] + slashed(parts))),
    ensures
        ({
            let whole = host + (seq!['/'] + slashed(parts));
            target::resolved(server, configured, whole) == goes_to(host, configured, parts, whole)
        }),
{
    lemma_a_path_is_its_parts(parts);
    lemma_up_to_a_slash(host, slashed(parts));
}

/// A target without a scheme whose first part holds no colon, or that has but
/// one part, goes to the server that is configured.
pub proof fn lemma_anything_else_goes_to_the_configured_server(
    server: Seq<char>,
    configured: Seq<char>,
    parts: Seq<Seq<char>>,
)
    requires
        parts.len() > 0,
        parts.len() == 1 || !parts[0].contains(':'),
        forall|i: int| 0 <= i < parts.len() ==> !(#[trigger] parts[i]).contains('/'),
        !"mssql://"@.is_prefix_of(slashed(parts)),
        !"sqlserver://"@.is_prefix_of(slashed(parts)),
    ensures
        target::resolved(server, configured, slashed(parts)) == goes_to(
            server,
            configured,
            parts,
            slashed(parts),
        ),
{
    lemma_a_path_is_its_parts(parts);
    assert(!parts[0].contains('/'));
    if parts.len() == 1 {
        lemma_up_to_a_slash(parts[0], Seq::empty());
    } else {
        lemma_up_to_a_slash(parts[0], slashed(parts.skip(1)));
    }
}

/// What is no target is refused by its own form, and no later attempt will
/// change that.
pub proof fn lemma_a_refusal_names_the_target(form: Seq<char>)
    ensures
        target::no_target(form) == (Fault {
            message: form + " is not database/table/column or table/column"@,
            retryable: false,
        }),
{
}

} // verus!
