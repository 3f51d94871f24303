//! One INSERT taken apart, so the far-end [`crate::Session`] can record
//! what a client wrote without being a SQL parser, and the INSERT a send
//! writes. The dialect is T-SQL's: bracketed or bare identifiers, a closing
//! bracket doubled inside brackets, and a string or `0x` literal, a quote
//! doubled inside quotes. Anything else is not an insert this crate serves.

use vstd::prelude::*;
use vstd::slice::slice_subrange;
use vstd::utf8::*;

use crate::binary;
use crate::client;
use crate::client::{quote_identifier, quote_literal};
use crate::number;
use crate::text;

verus! {

/// What reading from a statement comes to: what was read and what follows
/// it, or nothing.
pub type Parsed<T> = Option<(T, Seq<char>)>;

/// What `char::is_alphanumeric` says of a character past ASCII.
pub uninterp spec fn alphanumeric_past_ascii(c: char) -> bool;

/// True of the letters and digits of ASCII and of every script.
pub open spec fn is_alphanumeric(c: char) -> bool {
    if c <= '\u{7F}' {
        '0' <= c <= '9' || 'A' <= c <= 'Z' || 'a' <= c <= 'z'
    } else {
        alphanumeric_past_ascii(c)
    }
}

/// `char::is_alphanumeric` is true of the letters and digits of ASCII and of
/// no other character there; past ASCII the name says which.
pub assume_specification[ char::is_alphanumeric ](c: char) -> (yes: bool)
    ensures
        yes == (if c <= '\u{7F}' {
            '0' <= c <= '9' || 'A' <= c <= 'Z' || 'a' <= c <= 'z'
        } else {
            alphanumeric_past_ascii(c)
        }),
;

/// True of a character that a bare identifier may hold.
pub open spec fn is_bare(c: char) -> bool {
    is_alphanumeric(c) || c == '_' || c == '.' || c == '#' || c == '@'
}

/// `c`, a letter of ASCII being upper-case.
pub open spec fn upper(c: char) -> char {
    if 'a' <= c <= 'z' {
        ((c as int) - 32) as char
    } else {
        c
    }
}

/// True when `text` spells the upper-case `word`, in whatever case.
pub open spec fn spells_word(text: Seq<char>, word: Seq<char>) -> bool {
    &&& text.len() == word.len()
    &&& forall|i: int| 0 <= i < text.len() ==> upper(#[trigger] text[i]) == word[i]
}

/// What follows the keyword `word`, in whatever case, white space ahead of
/// it or not; nothing where it does not stand there as a word.
pub open spec fn after_keyword(s: Seq<char>, word: Seq<char>) -> Option<Seq<char>> {
    let t = text::left_trimmed(s);
    if t.len() >= word.len() && spells_word(t.take(word.len() as int), word) && (t.len()
        == word.len() || !is_bare(t[word.len() as int])) {
        Some(t.skip(word.len() as int))
    } else {
        None
    }
}

/// What follows the character `c`, white space ahead of it or not; nothing
/// where it does not stand there.
pub open spec fn after_char(s: Seq<char>, c: char) -> Option<Seq<char>> {
    let t = text::left_trimmed(s);
    if t.len() > 0 && t[0] == c {
        Some(t.skip(1))
    } else {
        None
    }
}

/// The text up to the next `closer`, two of them being one of the text, and
/// what follows it; nothing where there is none.
pub open spec fn unquoted(s: Seq<char>, closer: char) -> Parsed<Seq<char>>
    decreases s.len(),
{
    if s.len() == 0 {
        None
    } else if s[0] != closer {
        match unquoted(s.skip(1), closer) {
            Some((text, rest)) => Some((seq![s[0]] + text, rest)),
            None => None,
        }
    } else if s.len() > 1 && s[1] == closer {
        match unquoted(s.skip(2), closer) {
            Some((text, rest)) => Some((seq![closer] + text, rest)),
            None => None,
        }
    } else {
        Some((Seq::empty(), s.skip(1)))
    }
}

/// How many characters at the start of `s` a bare identifier may hold.
pub open spec fn bare_length(s: Seq<char>) -> nat
    decreases s.len(),
{
    if s.len() > 0 && is_bare(s[0]) {
        1 + bare_length(s.skip(1))
    } else {
        0
    }
}

/// How many characters at the start of `s` are hexadecimal digits.
pub open spec fn hex_length(s: Seq<char>) -> nat
    decreases s.len(),
{
    if s.len() > 0 && number::hex_value(s[0]) is Some {
        1 + hex_length(s.skip(1))
    } else {
        0
    }
}

/// The next identifier of `s`, bare or bracketed with `]]` for a bracket.
pub open spec fn next_identifier(s: Seq<char>) -> Parsed<Seq<char>> {
    let t = text::left_trimmed(s);
    let length = bare_length(t) as int;
    if t.len() > 0 && t[0] == '[' {
        unquoted(t.skip(1), ']')
    } else if length > 0 {
        Some((t.take(length), t.skip(length)))
    } else {
        None
    }
}

/// The next literal of `s` as bytes: `N'…'`, `'…'` or `0x…`.
pub open spec fn next_literal(s: Seq<char>) -> Parsed<Seq<u8>> {
    let t = text::left_trimmed(s);
    if t.len() >= 2 && t[0] == '0' && (t[1] == 'x' || t[1] == 'X') {
        let length = 2 + hex_length(t.skip(2));
        match binary::literal_bytes(t.take(length as int)) {
            Some(bytes) => Some((bytes, t.skip(length as int))),
            None => None,
        }
    } else {
        let quoted = if t.len() > 0 && t[0] == 'N' {
            t.skip(1)
        } else {
            t
        };
        if quoted.len() > 0 && quoted[0] == '\'' {
            match unquoted(quoted.skip(1), '\'') {
                Some((text, rest)) => Some((encode_utf8(text), rest)),
                None => None,
            }
        } else {
            None
        }
    }
}

/// A parenthesised identifier at the start of `s`.
pub open spec fn next_column_name(s: Seq<char>) -> Parsed<Seq<char>> {
    match after_char(s, '(') {
        None => None,
        Some(s) => match next_identifier(s) {
            None => None,
            Some((column, s)) => match after_char(s, ')') {
                None => None,
                Some(s) => Some((column, s)),
            },
        },
    }
}

/// A parenthesised literal at the start of `s`.
pub open spec fn next_value(s: Seq<char>) -> Parsed<Seq<u8>> {
    match after_char(s, '(') {
        None => None,
        Some(s) => match next_literal(s) {
            None => None,
            Some((bytes, s)) => match after_char(s, ')') {
                None => None,
                Some(s) => Some((bytes, s)),
            },
        },
    }
}

/// True where a statement may end: at white space, one semicolon in it or
/// not.
pub open spec fn at_the_end(s: Seq<char>) -> bool {
    text::trimmed(s) == Seq::<char>::empty() || text::trimmed(s) == seq![';']
}

/// The table, the column and the bytes of `INSERT INTO <table> (<column>)
/// VALUES (<literal>)`, or nothing where the statement is not one.
pub open spec fn insert_in(s: Seq<char>) -> Option<(Seq<char>, Seq<char>, Seq<u8>)> {
    match after_keyword(s, "INSERT"@) {
        None => None,
        Some(s) => match after_keyword(s, "INTO"@) {
            None => None,
            Some(s) => match next_identifier(s) {
                None => None,
                Some((table, s)) => match next_column_name(s) {
                    None => None,
                    Some((column, s)) => match after_keyword(s, "VALUES"@) {
                        None => None,
                        Some(s) => match next_value(s) {
                            None => None,
                            Some((bytes, s)) => if at_the_end(s) {
                                Some((table, column, bytes))
                            } else {
                                None
                            },
                        },
                    },
                },
            },
        },
    }
}

/// True of a character that a bare identifier may hold.
fn bare(c: char) -> (yes: bool)
    ensures
        yes == is_bare(c),
{
    c.is_alphanumeric() || c == '_' || c == '.' || c == '#' || c == '@'
}

/// `c`, a letter of ASCII being upper-case.
pub(crate) fn to_upper(c: char) -> (u: char)
    ensures
        u == upper(c),
{
    if 'a' <= c && c <= 'z' {
        (c as u32 - 32) as u8 as char
    } else {
        c
    }
}

/// What follows the keyword `word`, in whatever case.
fn keyword<'a>(s: &'a [char], word: &str) -> (rest: Option<&'a [char]>)
    ensures
        match rest {
            Some(rest) => after_keyword(s@, word@) == Some(rest@),
            None => after_keyword(s@, word@) is None,
        },
{
    let t: &[char] = text::trim_left(s);
    let letters: Vec<char> = text::chars_of(word);
    if t.len() < letters.len() {
        return None;
    }
    let mut i: usize = 0;
    while i < letters.len()
        invariant
            letters@ == word@,
            t@ == text::left_trimmed(s@),
            letters.len() <= t.len(),
            i <= letters.len(),
            forall|j: int| 0 <= j < i ==> upper(#[trigger] t@[j]) == word@[j],
        decreases letters.len() - i,
    {
        let c: char = t[i];
        if to_upper(c) != letters[i] {
            assert(upper(t@.take(word@.len() as int)[i as int]) != word@[i as int]);
            return None;
        }
        i = i + 1;
    }
    assert forall|j: int| 0 <= j < word@.len() implies upper(
        #[trigger] t@.take(word@.len() as int)[j],
    ) == word@[j] by {
        assert(t@.take(word@.len() as int)[j] == t@[j]);
    }
    if t.len() > letters.len() && bare(t[letters.len()]) {
        return None;
    }
    Some(slice_subrange(t, letters.len(), t.len()))
}

/// What follows the character `c`.
fn symbol(s: &[char], c: char) -> (rest: Option<&[char]>)
    ensures
        match rest {
            Some(rest) => after_char(s@, c) == Some(rest@),
            None => after_char(s@, c) is None,
        },
{
    let t: &[char] = text::trim_left(s);
    if t.len() > 0 && t[0] == c {
        Some(slice_subrange(t, 1, t.len()))
    } else {
        None
    }
}

/// The text up to the next `closer`, two of them being one of the text, and
/// what follows it.
fn unquote(s: &[char], closer: char) -> (parsed: Option<(String, &[char])>)
    ensures
        match parsed {
            Some((text, rest)) => unquoted(s@, closer) == Some((text@, rest@)),
            None => unquoted(s@, closer) is None,
        },
{
    let mut text: String = String::new();
    let mut rest: &[char] = s;
    assert(unquoted(s@, closer) matches Some((all, _)) ==> Seq::<char>::empty() + all =~= all);
    loop
        invariant
            match unquoted(rest@, closer) {
                Some((more, after)) => unquoted(s@, closer) == Some((text@ + more, after)),
                None => unquoted(s@, closer) is None,
            },
        decreases rest@.len(),
    {
        let ghost before = text@;
        if rest.len() == 0 {
            return None;
        }
        let c: char = rest[0];
        if c == closer {
            if rest.len() == 1 || rest[1] != closer {
                assert(text@ + Seq::empty() =~= text@);
                return Some((text, slice_subrange(rest, 1, rest.len())));
            }
        }
        text.push(c);
        let taken: usize = if c == closer {
            2
        } else {
            1
        };
        rest = slice_subrange(rest, taken, rest.len());
        proof {
            if let Some((more, _)) = unquoted(rest@, closer) {
                assert(text@ + more =~= before + (seq![c] + more));
            }
        }
    }
}

/// One identifier, bare or bracketed with `]]` for a bracket, and what
/// follows it.
fn identifier(s: &[char]) -> (parsed: Option<(String, &[char])>)
    ensures
        match parsed {
            Some((name, rest)) => next_identifier(s@) == Some((name@, rest@)),
            None => next_identifier(s@) is None,
        },
{
    let t: &[char] = text::trim_left(s);
    if t.len() > 0 && t[0] == '[' {
        return unquote(slice_subrange(t, 1, t.len()), ']');
    }
    let mut end: usize = 0;
    assert(t@.skip(0) =~= t@);
    while end < t.len() && bare(t[end])
        invariant
            end <= t.len(),
            end + bare_length(t@.skip(end as int)) == bare_length(t@),
        decreases t.len() - end,
    {
        assert(t@.skip(end as int).skip(1) =~= t@.skip(end + 1));
        end = end + 1;
    }
    if end > 0 {
        Some((text::text_of(slice_subrange(t, 0, end)), slice_subrange(t, end, t.len())))
    } else {
        None
    }
}

/// One literal — `N'…'`, `'…'` or `0x…` — as bytes, and what follows it.
fn literal(s: &[char]) -> (parsed: Option<(Vec<u8>, &[char])>)
    ensures
        match parsed {
            Some((bytes, rest)) => next_literal(s@) == Some((bytes@, rest@)),
            None => next_literal(s@) is None,
        },
{
    let t: &[char] = text::trim_left(s);
    if t.len() >= 2 && t[0] == '0' && (t[1] == 'x' || t[1] == 'X') {
        let mut end: usize = 2;
        while end < t.len() && number::read_hex_digit(t[end]).is_some()
            invariant
                2 <= end <= t.len(),
                end + hex_length(t@.skip(end as int)) == 2 + hex_length(t@.skip(2)),
            decreases t.len() - end,
        {
            assert(t@.skip(end as int).skip(1) =~= t@.skip(end + 1));
            end = end + 1;
        }
        return match binary::from_literal(slice_subrange(t, 0, end)) {
            Some(bytes) => Some((bytes, slice_subrange(t, end, t.len()))),
            None => None,
        };
    }
    let quoted: &[char] = if t.len() > 0 && t[0] == 'N' {
        slice_subrange(t, 1, t.len())
    } else {
        t
    };
    if quoted.len() > 0 && quoted[0] == '\'' {
        match unquote(slice_subrange(quoted, 1, quoted.len()), '\'') {
            Some((text, rest)) => Some((text::bytes_of(text.as_str()), rest)),
            None => None,
        }
    } else {
        None
    }
}

/// A parenthesised identifier, and what follows it.
fn column_name(s: &[char]) -> (parsed: Option<(String, &[char])>)
    ensures
        match parsed {
            Some((name, rest)) => next_column_name(s@) == Some((name@, rest@)),
            None => next_column_name(s@) is None,
        },
{
    let (name, rest): (String, &[char]) = identifier(symbol(s, '(')?)?;
    Some((name, symbol(rest, ')')?))
}

/// A parenthesised literal, and what follows it.
fn value(s: &[char]) -> (parsed: Option<(Vec<u8>, &[char])>)
    ensures
        match parsed {
            Some((bytes, rest)) => next_value(s@) == Some((bytes@, rest@)),
            None => next_value(s@) is None,
        },
{
    let (bytes, rest): (Vec<u8>, &[char]) = literal(symbol(s, '(')?)?;
    Some((bytes, symbol(rest, ')')?))
}

/// `INSERT INTO <table> (<column>) VALUES (<literal>)` taken apart: the
/// table, the column and the literal's bytes — a string literal's text,
/// with or without its `N`, quotes undoubled; a `0x` literal's bytes.
/// Identifiers may be bracketed; anything else is `None`.
#[must_use]
pub fn parse_insert(statement: &str) -> (insert: Option<(String, String, Vec<u8>)>)
    ensures
        match insert {
            Some((table, column, bytes)) => insert_in(statement@) == Some(
                (table@, column@, bytes@),
            ),
            None => insert_in(statement@) is None,
        },
{
    let chars: Vec<char> = text::chars_of(statement);
    let rest: &[char] = keyword(chars.as_slice(), "INSERT")?;
    let rest: &[char] = keyword(rest, "INTO")?;
    let (table, rest): (String, &[char]) = identifier(rest)?;
    let (column, rest): (String, &[char]) = column_name(rest)?;
    let rest: &[char] = keyword(rest, "VALUES")?;
    let (bytes, rest): (Vec<u8>, &[char]) = value(rest)?;
    let last: &[char] = text::trim(rest);
    let ended: bool = last.len() == 0 || (last.len() == 1 && last[0] == ';');
    proof {
        if ended {
            if last@.len() == 0 {
                assert(last@ =~= Seq::<char>::empty());
            } else {
                assert(last@ =~= seq![';']);
            }
        }
        assert(at_the_end(rest@) == ended);
    }
    if ended {
        Some((table, column, bytes))
    } else {
        None
    }
}

// The INSERT a send writes.

/// `bytes` as the literal a send writes: text as text, anything else as a
/// binary literal.
pub open spec fn literal_for(bytes: Seq<u8>) -> Seq<char> {
    if binary::is_text_bytes(bytes) {
        client::quoted_literal(decode_utf8(bytes))
    } else {
        binary::literal_of(bytes)
    }
}

/// The statement that inserts `bytes` as one `column` of one row of `table`.
pub open spec fn insert_statement(table: Seq<char>, column: Seq<char>, bytes: Seq<u8>) -> Seq<
    char,
> {
    "INSERT INTO "@ + client::quoted_identifier(table) + " ("@ + client::quoted_identifier(column)
        + ") VALUES ("@ + literal_for(bytes) + ")"@
}

/// `bytes` as the literal a send writes: text as text, anything else as a
/// binary literal.
fn literal_text(bytes: &[u8]) -> (literal: String)
    ensures
        literal@ == literal_for(bytes@),
{
    if binary::is_text(bytes) {
        match text::utf8(bytes) {
            Some(text) => quote_literal(text),
            None => binary::hex_literal(bytes),
        }
    } else {
        binary::hex_literal(bytes)
    }
}

/// The statement that inserts `bytes` as one `column` of one row of `table`:
/// text as text, anything else as a binary literal.
#[must_use]
pub fn write_insert(table: &str, column: &str, bytes: &[u8]) -> (sql: String)
    ensures
        sql@ == insert_statement(table@, column@, bytes@),
{
    let mut sql: String = "INSERT INTO ".to_owned();
    sql.append(quote_identifier(table).as_str());
    sql.append(" (");
    sql.append(quote_identifier(column).as_str());
    sql.append(") VALUES (");
    sql.append(literal_text(bytes).as_str());
    sql.append(")");
    sql
}

/// Text with its closer doubled, read up to a closer, is the text.
pub proof fn lemma_unquotes(text: Seq<char>, closer: char, rest: Seq<char>)
    requires
        rest.len() == 0 || rest[0] != closer,
    ensures
        unquoted(client::doubled(text, closer) + seq![closer] + rest, closer) == Some((text, rest)),
    decreases text.len(),
{
    let s = client::doubled(text, closer) + seq![closer] + rest;
    if text.len() == 0 {
        assert(s =~= seq![closer] + rest);
        assert(s.skip(1) =~= rest);
        assert(text =~= Seq::empty());
    } else {
        let others = text.skip(1);
        let behind = client::doubled(others, closer) + seq![closer] + rest;
        lemma_unquotes(others, closer, rest);
        assert(seq![text[0]] + others =~= text);
        if text[0] == closer {
            assert(s =~= seq![closer, closer] + behind);
            assert(s.skip(2) =~= behind);
        } else {
            assert(s =~= seq![text[0]] + behind);
            assert(s.skip(1) =~= behind);
        }
    }
}

/// Text that begins with what is not white space has none to trim.
proof fn lemma_nothing_to_trim(s: Seq<char>)
    requires
        s.len() > 0,
        !text::is_space(s[0]),
    ensures
        text::left_trimmed(s) == s,
{
}

/// One space is trimmed.
proof fn lemma_space_trimmed(s: Seq<char>)
    requires
        s.len() > 0,
        !text::is_space(s[0]),
    ensures
        text::left_trimmed(seq![' '] + s) == s,
{
    reveal_with_fuel(text::left_trimmed, 2);
    assert((seq![' '] + s).skip(1) =~= s);
}

/// An identifier that was quoted, a space ahead of it or not, is the
/// identifier.
pub proof fn lemma_identifier_reads_back(name: Seq<char>, rest: Seq<char>)
    requires
        rest.len() == 0 || rest[0] != ']',
    ensures
        next_identifier(client::quoted_identifier(name) + rest) == Some((name, rest)),
        next_identifier(seq![' '] + client::quoted_identifier(name) + rest) == Some((name, rest)),
{
    let s = client::quoted_identifier(name) + rest;
    lemma_nothing_to_trim(s);
    lemma_space_trimmed(s);
    assert(seq![' '] + client::quoted_identifier(name) + rest =~= seq![' '] + s);
    lemma_unquotes(name, ']', rest);
    assert(s.skip(1) =~= client::doubled(name, ']') + seq![']'] + rest);
}

/// The digits of a binary literal run up to what is no digit.
proof fn lemma_digits_run(digits: Seq<char>, rest: Seq<char>)
    requires
        forall|i: int| 0 <= i < digits.len() ==> number::hex_value(#[trigger] digits[i]) is Some,
        rest.len() == 0 || number::hex_value(rest[0]) is None,
    ensures
        hex_length(digits + rest) == digits.len(),
    decreases digits.len(),
{
    if digits.len() == 0 {
        assert(digits + rest =~= rest);
    } else {
        lemma_digits_run(digits.skip(1), rest);
        assert(number::hex_value(digits[0]) is Some);
        assert((digits + rest).skip(1) =~= digits.skip(1) + rest);
    }
}

/// The literal a send writes names the bytes it was written for.
pub proof fn lemma_literal_reads_back(bytes: Seq<u8>, rest: Seq<char>)
    requires
        rest.len() == 0 || (rest[0] != '\'' && number::hex_value(rest[0]) is None),
    ensures
        next_literal(literal_for(bytes) + rest) == Some((bytes, rest)),
{
    if binary::is_text_bytes(bytes) {
        lemma_string_reads_back(decode_utf8(bytes), rest);
        decode_utf8_encode_utf8(bytes);
    } else {
        lemma_digits_read_back(bytes, rest);
    }
}

/// A string literal that a send writes names the UTF-8 of its text.
#[verifier::spinoff_prover]
proof fn lemma_string_reads_back(text: Seq<char>, rest: Seq<char>)
    requires
        rest.len() == 0 || rest[0] != '\'',
    ensures
        next_literal(client::quoted_literal(text) + rest) == Some((encode_utf8(text), rest)),
{
    let s = client::quoted_literal(text) + rest;
    lemma_nothing_to_trim(s);
    lemma_unquotes(text, '\'', rest);
    assert(s.skip(1).skip(1) =~= client::doubled(text, '\'') + seq!['\''] + rest);
}

/// A binary literal that a send writes names its bytes.
#[verifier::spinoff_prover]
proof fn lemma_digits_read_back(bytes: Seq<u8>, rest: Seq<char>)
    requires
        rest.len() == 0 || number::hex_value(rest[0]) is None,
    ensures
        next_literal(binary::literal_of(bytes) + rest) == Some((bytes, rest)),
{
    let s = binary::literal_of(bytes) + rest;
    let digits = binary::hex_digits(bytes);
    lemma_nothing_to_trim(s);
    binary::lemma_literal_reads_back(bytes);
    assert forall|i: int| 0 <= i < digits.len() implies number::hex_value(
        #[trigger] digits[i],
    ) is Some by {
        assert(binary::literal_of(bytes)[2 + i] == digits[i]);
    }
    lemma_digits_run(digits, rest);
    assert(s.skip(2) =~= digits + rest);
    assert(s.take(2 + digits.len() as int) =~= binary::literal_of(bytes));
    assert(s.skip(2 + digits.len() as int) =~= rest);
}

/// A keyword reads, a space ahead of it or not.
proof fn lemma_keyword_reads(word: Seq<char>, rest: Seq<char>)
    requires
        word.len() > 0,
        forall|i: int| 0 <= i < word.len() ==> 'A' <= #[trigger] word[i] <= 'Z',
        rest.len() == 0 || !is_bare(rest[0]),
    ensures
        after_keyword(word + rest, word) == Some(rest),
        after_keyword(seq![' '] + word + rest, word) == Some(rest),
{
    let s = word + rest;
    assert('A' <= word[0] <= 'Z');
    lemma_nothing_to_trim(s);
    lemma_space_trimmed(s);
    assert(seq![' '] + word + rest =~= seq![' '] + s);
    assert(s.take(word.len() as int) =~= word);
    assert(s.skip(word.len() as int) =~= rest);
}

/// A character that is no white space reads, a space ahead of it or not.
proof fn lemma_char_reads(c: char, rest: Seq<char>)
    requires
        !text::is_space(c),
    ensures
        after_char(seq![c] + rest, c) == Some(rest),
        after_char(seq![' ', c] + rest, c) == Some(rest),
{
    let s = seq![c] + rest;
    lemma_nothing_to_trim(s);
    lemma_space_trimmed(s);
    assert(seq![' ', c] + rest =~= seq![' '] + s);
    assert(s.skip(1) =~= rest);
}

/// The value of an insert reads back.
proof fn lemma_value_reads_back(bytes: Seq<u8>)
    ensures
        next_value(seq![' ', '('] + literal_for(bytes) + seq![')']) == Some(
            (bytes, Seq::<char>::empty()),
        ),
{
    let s = literal_for(bytes) + seq![')'];
    assert(seq![' ', '('] + literal_for(bytes) + seq![')'] =~= seq![' ', '('] + s);
    lemma_char_reads('(', s);
    lemma_literal_reads_back(bytes, seq![')']);
    lemma_char_reads(')', Seq::empty());
    assert(seq![')'] + Seq::empty() =~= seq![')']);
}

/// The column of an insert reads back.
proof fn lemma_column_name_reads_back(column: Seq<char>, rest: Seq<char>)
    ensures
        next_column_name(seq![' ', '('] + client::quoted_identifier(column) + (seq![')'] + rest))
            == Some((column, rest)),
{
    let behind = seq![')'] + rest;
    let s = client::quoted_identifier(column) + behind;
    assert(seq![' ', '('] + client::quoted_identifier(column) + behind =~= seq![' ', '('] + s);
    lemma_char_reads('(', s);
    lemma_identifier_reads_back(column, behind);
    lemma_char_reads(')', rest);
}

/// A statement that a send writes stands as its parts do.
proof fn lemma_statement_layout(table: Seq<char>, column: Seq<char>, bytes: Seq<u8>)
    ensures
        ({
            let value = seq![' ', '('] + literal_for(bytes) + seq![')'];
            let values = seq![' '] + "VALUES"@ + value;
            let named = seq![' ', '('] + client::quoted_identifier(column) + (seq![')'] + values);
            insert_statement(table, column, bytes) == "INSERT"@ + (seq![' '] + "INTO"@ + (seq![' ']
                + client::quoted_identifier(table) + named))
        }),
{
    reveal_strlit("INSERT INTO ");
    reveal_strlit("INSERT");
    reveal_strlit("INTO");
    reveal_strlit(" (");
    reveal_strlit(") VALUES (");
    reveal_strlit("VALUES");
    reveal_strlit(")");
    let t = client::quoted_identifier(table);
    let c = client::quoted_identifier(column);
    let l = literal_for(bytes);
    assert("INSERT INTO "@ =~= "INSERT"@ + (seq![' '] + "INTO"@ + seq![' ']));
    assert(" ("@ =~= seq![' ', '(']);
    assert(") VALUES ("@ =~= seq![')'] + (seq![' '] + "VALUES"@ + seq![' ', '(']));
    assert(")"@ =~= seq![')']);
    lemma_regrouped("INSERT"@, "INTO"@, "VALUES"@, t, c, l);
}

/// The parts of a statement, grouped as they are written and as they are
/// read.
proof fn lemma_regrouped(
    a: Seq<char>,
    b: Seq<char>,
    v: Seq<char>,
    t: Seq<char>,
    c: Seq<char>,
    l: Seq<char>,
)
    ensures
        (a + (seq![' '] + b + seq![' '])) + t + seq![' ', '('] + c + (seq![')'] + (seq![' '] + v
            + seq![' ', '('])) + l + seq![')'] == a + (seq![' '] + b + (seq![' '] + t + (seq![
            ' ',
            '(',
        ] + c + (seq![')'] + (seq![' '] + v + (seq![' ', '('] + l + seq![')'])))))),
{
    let open = seq![' ', '('];
    let value = open + l + seq![')'];
    assert((seq![')'] + (seq![' '] + v + open)) + l + seq![')'] =~= seq![')'] + (seq![' '] + v
        + value));
    let values = seq![')'] + (seq![' '] + v + value);
    assert((a + (seq![' '] + b + seq![' '])) + t + open + c + (seq![')'] + (seq![' '] + v + open))
        + l + seq![')'] =~= (a + (seq![' '] + b + seq![' '])) + t + open + c + ((seq![')'] + (
    seq![' '] + v + open)) + l + seq![')']));
    assert((a + (seq![' '] + b + seq![' '])) + t + open + c + values =~= a + (seq![' '] + b + (
    seq![' '] + t + (open + c + values))));
}

/// A statement whose parts read one behind the other is an insert of them.
proof fn lemma_insert_of_parts(
    s: Seq<char>,
    s1: Seq<char>,
    s2: Seq<char>,
    table: Seq<char>,
    s3: Seq<char>,
    column: Seq<char>,
    s4: Seq<char>,
    s5: Seq<char>,
    bytes: Seq<u8>,
    s6: Seq<char>,
)
    requires
        after_keyword(s, "INSERT"@) == Some(s1),
        after_keyword(s1, "INTO"@) == Some(s2),
        next_identifier(s2) == Some((table, s3)),
        next_column_name(s3) == Some((column, s4)),
        after_keyword(s4, "VALUES"@) == Some(s5),
        next_value(s5) == Some((bytes, s6)),
        at_the_end(s6),
    ensures
        insert_in(s) == Some((table, column, bytes)),
{
}

/// The three keywords of an insert read where they stand.
proof fn lemma_keywords_read(into: Seq<char>, value: Seq<char>)
    requires
        into.len() > 0,
        into[0] == ' ',
        value.len() > 0,
        value[0] == ' ',
    ensures
        after_keyword("INSERT"@ + (seq![' '] + "INTO"@ + into), "INSERT"@) == Some(
            seq![' '] + "INTO"@ + into,
        ),
        after_keyword(seq![' '] + "INTO"@ + into, "INTO"@) == Some(into),
        after_keyword(seq![' '] + "VALUES"@ + value, "VALUES"@) == Some(value),
{
    reveal_strlit("INSERT");
    reveal_strlit("INTO");
    reveal_strlit("VALUES");
    lemma_keyword_reads("INSERT"@, seq![' '] + "INTO"@ + into);
    lemma_keyword_reads("INTO"@, into);
    lemma_keyword_reads("VALUES"@, value);
}

/// A payload inserted is the payload taken apart again, whatever the table
/// and the column are called and whatever the bytes are: text through a
/// string literal, anything else through a binary one.
#[verifier::spinoff_prover]
pub proof fn lemma_insert_reads_back(table: Seq<char>, column: Seq<char>, bytes: Seq<u8>)
    ensures
        insert_in(insert_statement(table, column, bytes)) == Some((table, column, bytes)),
{
    let value = seq![' ', '('] + literal_for(bytes) + seq![')'];
    let values = seq![' '] + "VALUES"@ + value;
    let named = seq![' ', '('] + client::quoted_identifier(column) + (seq![')'] + values);
    let into = seq![' '] + client::quoted_identifier(table) + named;
    lemma_statement_layout(table, column, bytes);
    lemma_keywords_read(into, value);
    lemma_identifier_reads_back(table, named);
    lemma_column_name_reads_back(column, values);
    lemma_value_reads_back(bytes);
    assert(text::trimmed(Seq::<char>::empty()) =~= Seq::empty());
    lemma_insert_of_parts(
        insert_statement(table, column, bytes),
        seq![' '] + "INTO"@ + into,
        into,
        table,
        named,
        column,
        values,
        value,
        bytes,
        Seq::empty(),
    );
}

} // verus!
