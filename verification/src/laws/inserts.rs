//! The INSERT a send writes, and any INSERT a client may write.

use vstd::prelude::*;
use vstd::utf8::*;

use crate::binary;
use crate::client;
use crate::insert;
use crate::laws::texts;
use crate::number;
use crate::text;

verus! {

/// True of white space, however much.
pub open spec fn is_blank(text: Seq<char>) -> bool {
    forall|i: int| 0 <= i < text.len() ==> text::is_space(#[trigger] text[i])
}

// Writing.

/// A send writes text as text, however long it is: bytes that are UTF-8
/// without a NUL as an `N` literal of what they spell, each quote doubled;
/// and anything else as a binary literal.
pub proof fn lemma_text_is_written_as_text(table: Seq<char>, column: Seq<char>, bytes: Seq<u8>)
    ensures
        ({
            let head = "INSERT INTO "@ + (seq!['['] + client::doubled(table, ']') + seq![']'])
                + " ("@ + (seq!['['] + client::doubled(column, ']') + seq![']']) + ") VALUES ("@;
            &&& valid_utf8(bytes) && !decode_utf8(bytes).contains('\0') ==> insert::literal_for(
                bytes,
            ) == seq!['N', '\''] + client::doubled(decode_utf8(bytes), '\'') + seq!['\'']
                && insert::insert_statement(table, column, bytes) == head + (seq!['N', '\'']
                + client::doubled(decode_utf8(bytes), '\'') + seq!['\'']) + ")"@
            &&& !(valid_utf8(bytes) && !decode_utf8(bytes).contains('\0')) ==> insert::literal_for(
                bytes,
            ) == binary::literal_of(bytes) && insert::insert_statement(table, column, bytes) == head
                + binary::literal_of(bytes) + ")"@
        }),
{
}

/// A send writes any text without a NUL as that text.
pub proof fn lemma_said_text_is_written_as_text(said: Seq<char>)
    requires
        !said.contains('\0'),
    ensures
        insert::literal_for(encode_utf8(said)) == seq!['N', '\''] + client::doubled(said, '\'')
            + seq!['\''],
{
    encode_utf8_valid_utf8(said);
    encode_utf8_decode_utf8(said);
    lemma_text_is_written_as_text(Seq::empty(), Seq::empty(), encode_utf8(said));
}

// Reading.

/// A bare identifier holds letters and digits, and of other characters of
/// ASCII four: the underscore, the full stop, the number sign and the at
/// sign.
pub proof fn lemma_bare_characters(c: char)
    ensures
        c as u32 <= 0x7F ==> (insert::is_bare(c) <==> ('0' <= c <= '9' || 'A' <= c <= 'Z' || 'a'
            <= c <= 'z' || c == '_' || c == '.' || c == '#' || c == '@')),
        c as u32 > 0x7F ==> (insert::is_bare(c) <==> insert::alphanumeric_past_ascii(c)),
{
}

/// Text ahead of which there is white space is read as if there were none.
proof fn lemma_past_the_blank(ahead: Seq<char>, s: Seq<char>)
    requires
        is_blank(ahead),
        s.len() > 0,
        !text::is_space(s[0]),
    ensures
        text::left_trimmed(ahead + s) == s,
{
    texts::lemma_ahead_is_trimmed(ahead, s);
}

/// What is open is not closed by doubled closers.
proof fn lemma_never_closed(said: Seq<char>, closer: char)
    ensures
        insert::unquoted(client::doubled(said, closer), closer) is None,
    decreases said.len(),
{
    let s = client::doubled(said, closer);
    if said.len() > 0 {
        let others = said.skip(1);
        lemma_never_closed(others, closer);
        if said[0] == closer {
            assert(s.skip(2) =~= client::doubled(others, closer));
        } else {
            assert(s.skip(1) =~= client::doubled(others, closer));
        }
    }
}

/// A string literal is its text, with its `N` or without: what stands between
/// the quotes, a doubled one being one of the text. One that is not closed is
/// none.
pub proof fn lemma_string_literals_are_read(ahead: Seq<char>, said: Seq<char>, rest: Seq<char>)
    requires
        is_blank(ahead),
        rest.len() == 0 || rest[0] != '\'',
    ensures
        ({
            let open = seq!['\''] + client::doubled(said, '\'');
            &&& insert::next_literal(ahead + (open + seq!['\''] + rest)) == Some(
                (encode_utf8(said), rest),
            )
            &&& insert::next_literal(ahead + (seq!['N'] + (open + seq!['\''] + rest))) == Some(
                (encode_utf8(said), rest),
            )
            &&& insert::next_literal(ahead + open) is None
            &&& insert::next_literal(ahead + (seq!['N'] + open)) is None
        }),
{
    let open = seq!['\''] + client::doubled(said, '\'');
    let s = open + seq!['\''] + rest;
    let n = seq!['N'] + s;
    insert::lemma_unquotes(said, '\'', rest);
    lemma_never_closed(said, '\'');
    lemma_past_the_blank(ahead, s);
    lemma_past_the_blank(ahead, n);
    lemma_past_the_blank(ahead, open);
    lemma_past_the_blank(ahead, seq!['N'] + open);
    assert(s.skip(1) =~= client::doubled(said, '\'') + seq!['\''] + rest);
    assert(n.skip(1) =~= s);
    assert(open.skip(1) =~= client::doubled(said, '\''));
    assert((seq!['N'] + open).skip(1) =~= open);
}

/// A string literal is the same with its `N` and without, whatever its text.
pub proof fn lemma_the_n_makes_no_difference(said: Seq<char>, rest: Seq<char>)
    requires
        rest.len() == 0 || rest[0] != '\'',
    ensures
        insert::next_literal(seq!['\''] + client::doubled(said, '\'') + seq!['\''] + rest) == Some(
            (encode_utf8(said), rest),
        ),
        insert::next_literal(
            seq!['N'] + (seq!['\''] + client::doubled(said, '\'') + seq!['\''] + rest),
        ) == Some((encode_utf8(said), rest)),
{
    let s = seq!['\''] + client::doubled(said, '\'') + seq!['\''] + rest;
    lemma_string_literals_are_read(Seq::empty(), said, rest);
    assert(Seq::empty() + s =~= s);
    assert(Seq::empty() + (seq!['N'] + s) =~= seq!['N'] + s);
}

/// Digits run up to what is none.
proof fn lemma_digits_run(digits: Seq<char>, rest: Seq<char>)
    requires
        forall|i: int| 0 <= i < digits.len() ==> number::hex_value(#[trigger] digits[i]) is Some,
        rest.len() == 0 || number::hex_value(rest[0]) is None,
    ensures
        insert::hex_length(digits + rest) == digits.len(),
    decreases digits.len(),
{
    if digits.len() == 0 {
        assert(digits + rest =~= rest);
    } else {
        let others = digits.skip(1);
        assert(forall|i: int| 0 <= i < others.len() ==> #[trigger] others[i] == digits[i + 1]);
        lemma_digits_run(others, rest);
        assert(number::hex_value(digits[0]) is Some);
        assert((digits + rest).skip(1) =~= others + rest);
    }
}

/// A binary literal is its digits up to what is none, two to a byte in
/// either case; with a digit too many it is none.
pub proof fn lemma_binary_literals_are_read(
    ahead: Seq<char>,
    x: char,
    digits: Seq<char>,
    rest: Seq<char>,
)
    requires
        is_blank(ahead),
        x == 'x' || x == 'X',
        forall|i: int|
            0 <= i < digits.len() ==> '0' <= #[trigger] digits[i] <= '9' || 'a' <= digits[i] <= 'f'
                || 'A' <= digits[i] <= 'F',
        rest.len() == 0 || !('0' <= rest[0] <= '9' || 'a' <= rest[0] <= 'f' || 'A' <= rest[0]
            <= 'F'),
    ensures
        digits.len() % 2 == 1 ==> insert::next_literal(ahead + (seq!['0', x] + digits + rest)) is None,
        digits.len() % 2 == 0 ==> ({
            let read = binary::literal_bytes(seq!['0', x] + digits);
            read is Some && insert::next_literal(ahead + (seq!['0', x] + digits + rest)) == Some(
                (read->0, rest),
            )
        }),
{
    let s = seq!['0', x] + digits + rest;
    lemma_past_the_blank(ahead, s);
    assert forall|i: int| 0 <= i < digits.len() implies number::hex_value(
        #[trigger] digits[i],
    ) is Some by {}
    lemma_digits_run(digits, rest);
    assert(s.skip(2) =~= digits + rest);
    let whole = seq!['0', x] + digits;
    assert(s.take(2 + digits.len() as int) =~= whole);
    assert(s.skip(2 + digits.len() as int) =~= rest);
    assert forall|i: int| 2 <= i < whole.len() implies number::hex_value(
        #[trigger] whole[i],
    ) is Some by {
        assert(whole[i] == digits[i - 2]);
    }
}

/// What begins neither with a quote nor with `N` and a quote nor with `0x` is
/// no literal.
pub proof fn lemma_anything_else_is_no_literal(ahead: Seq<char>, s: Seq<char>)
    requires
        is_blank(ahead),
        s.len() > 0 ==> !text::is_space(s[0]) && s[0] != '\'',
        s.len() > 0 && s[0] == 'N' ==> s.len() == 1 || s[1] != '\'',
        s.len() > 1 && s[0] == '0' ==> s[1] != 'x' && s[1] != 'X',
    ensures
        insert::next_literal(ahead + s) is None,
{
    texts::lemma_ahead_is_trimmed(ahead, s);
}

/// A bracketed identifier is the name between its brackets, a doubled closing
/// one being one of the name; one that is not closed is none.
pub proof fn lemma_bracketed_names_are_read(ahead: Seq<char>, name: Seq<char>, rest: Seq<char>)
    requires
        is_blank(ahead),
        rest.len() == 0 || rest[0] != ']',
    ensures
        insert::next_identifier(
            ahead + (seq!['['] + client::doubled(name, ']') + seq![']'] + rest),
        ) == Some((name, rest)),
        insert::next_identifier(ahead + (seq!['['] + client::doubled(name, ']'))) is None,
{
    let s = seq!['['] + client::doubled(name, ']') + seq![']'] + rest;
    let open = seq!['['] + client::doubled(name, ']');
    insert::lemma_unquotes(name, ']', rest);
    lemma_never_closed(name, ']');
    lemma_past_the_blank(ahead, s);
    lemma_past_the_blank(ahead, open);
    assert(s.skip(1) =~= client::doubled(name, ']') + seq![']'] + rest);
    assert(open.skip(1) =~= client::doubled(name, ']'));
}

/// Bare characters run up to what is none.
proof fn lemma_bare_run(name: Seq<char>, rest: Seq<char>)
    requires
        forall|i: int| 0 <= i < name.len() ==> insert::is_bare(#[trigger] name[i]),
        rest.len() == 0 || !insert::is_bare(rest[0]),
    ensures
        insert::bare_length(name + rest) == name.len(),
    decreases name.len(),
{
    if name.len() == 0 {
        assert(name + rest =~= rest);
    } else {
        let others = name.skip(1);
        assert(forall|i: int| 0 <= i < others.len() ==> #[trigger] others[i] == name[i + 1]);
        lemma_bare_run(others, rest);
        assert(insert::is_bare(name[0]));
        assert((name + rest).skip(1) =~= others + rest);
    }
}

/// A bare identifier is the characters it may hold, up to one it may not,
/// however many they are.
pub proof fn lemma_bare_names_are_read(ahead: Seq<char>, name: Seq<char>, rest: Seq<char>)
    requires
        is_blank(ahead),
        name.len() > 0,
        !text::is_space(name[0]),
        name[0] != '[',
        forall|i: int| 0 <= i < name.len() ==> insert::is_bare(#[trigger] name[i]),
        rest.len() == 0 || !insert::is_bare(rest[0]),
    ensures
        insert::next_identifier(ahead + (name + rest)) == Some((name, rest)),
{
    let s = name + rest;
    assert(s[0] == name[0]);
    lemma_past_the_blank(ahead, s);
    lemma_bare_run(name, rest);
    assert(s.take(name.len() as int) =~= name);
    assert(s.skip(name.len() as int) =~= rest);
}

/// What begins neither with a bracket nor with a character that a bare one
/// may hold is no identifier.
pub proof fn lemma_anything_else_is_no_name(ahead: Seq<char>, s: Seq<char>)
    requires
        is_blank(ahead),
        s.len() > 0 ==> !text::is_space(s[0]) && s[0] != '[' && !insert::is_bare(s[0]),
    ensures
        insert::next_identifier(ahead + s) is None,
{
    texts::lemma_ahead_is_trimmed(ahead, s);
}

/// True of the upper-case `word` spelled in whatever case.
pub open spec fn spelled(text: Seq<char>, word: Seq<char>) -> bool {
    &&& text.len() == word.len()
    &&& forall|i: int|
        0 <= i < word.len() ==> #[trigger] text[i] == word[i] || text[i] as int == word[i] as int
            + 32
}

/// True of a word of upper-case letters.
pub open spec fn is_word(word: Seq<char>) -> bool {
    word.len() > 0 && forall|i: int| 0 <= i < word.len() ==> 'A' <= #[trigger] word[i] <= 'Z'
}

/// A keyword is read in whatever case, white space ahead of it or not, where
/// it stands as a word: nothing that an identifier may hold follows it.
pub proof fn lemma_keywords_are_read(
    ahead: Seq<char>,
    said: Seq<char>,
    word: Seq<char>,
    rest: Seq<char>,
)
    requires
        is_blank(ahead),
        is_word(word),
        spelled(said, word),
    ensures
        insert::after_keyword(ahead + (said + rest), word) == (if rest.len() == 0
            || !insert::is_bare(rest[0]) {
            Some(rest)
        } else {
            None
        }),
{
    let s = said + rest;
    assert('A' <= word[0] <= 'Z');
    assert(said[0] == word[0] || said[0] as int == word[0] as int + 32);
    assert(s[0] == said[0]);
    lemma_past_the_blank(ahead, s);
    let head = s.take(word.len() as int);
    assert(head =~= said);
    assert forall|i: int| 0 <= i < head.len() implies insert::upper(#[trigger] head[i])
        == word[i] by {
        assert('A' <= word[i] <= 'Z');
        assert(said[i] == word[i] || said[i] as int == word[i] as int + 32);
    }
    assert(s.skip(word.len() as int) =~= rest);
}

/// What spells another word is no keyword.
pub proof fn lemma_other_words_are_no_keywords(
    ahead: Seq<char>,
    s: Seq<char>,
    word: Seq<char>,
    i: int,
)
    requires
        is_blank(ahead),
        is_word(word),
        s.len() > 0 ==> !text::is_space(s[0]),
        s.len() < word.len() || (0 <= i < word.len() && s[i] != word[i] && s[i] as int != word[i]
            as int + 32),
    ensures
        insert::after_keyword(ahead + s, word) is None,
{
    texts::lemma_ahead_is_trimmed(ahead, s);
    if s.len() >= word.len() {
        let head = s.take(word.len() as int);
        assert(head[i] == s[i]);
        assert('A' <= word[i] <= 'Z');
        assert(insert::upper(head[i]) != word[i]);
    }
}

/// A sign is read, white space ahead of it or not, and nothing else is.
pub proof fn lemma_signs_are_read(ahead: Seq<char>, c: char, other: char, rest: Seq<char>)
    requires
        is_blank(ahead),
        !text::is_space(c),
        !text::is_space(other),
        other != c,
    ensures
        insert::after_char(ahead + (seq![c] + rest), c) == Some(rest),
        insert::after_char(ahead + (seq![other] + rest), c) is None,
        insert::after_char(ahead, c) is None,
{
    lemma_past_the_blank(ahead, seq![c] + rest);
    lemma_past_the_blank(ahead, seq![other] + rest);
    texts::lemma_ahead_is_trimmed(ahead, Seq::empty());
    assert(ahead + Seq::empty() =~= ahead);
    assert((seq![c] + rest).skip(1) =~= rest);
}

/// A statement ends at white space, one semicolon in it or not, and at
/// nothing else.
pub proof fn lemma_a_statement_ends(ahead: Seq<char>, said: Seq<char>, behind: Seq<char>)
    requires
        is_blank(ahead),
        is_blank(behind),
        said.len() > 0 ==> !text::is_space(said[0]) && !text::is_space(said.last()),
    ensures
        insert::at_the_end(ahead + said + behind) <==> (said.len() == 0 || said == seq![';']),
{
    texts::lemma_white_space_around_text_is_trimmed(ahead, said, behind);
    if said.len() == 0 {
        assert(said =~= Seq::empty());
    }
}

/// True of `text` that names `name`: in brackets, or as it is where a bare
/// identifier may hold it.
pub open spec fn names(text: Seq<char>, name: Seq<char>) -> bool {
    ||| text == seq!['['] + client::doubled(name, ']') + seq![']']
    ||| {
        &&& text == name
        &&& name.len() > 0
        &&& !text::is_space(name[0])
        &&& name[0] != '['
        &&& forall|i: int| 0 <= i < name.len() ==> insert::is_bare(#[trigger] name[i])
    }
}

/// A name is read up to what neither brackets nor a bare one go on with.
proof fn lemma_a_name_is_read(ahead: Seq<char>, said: Seq<char>, name: Seq<char>, rest: Seq<char>)
    requires
        is_blank(ahead),
        names(said, name),
        rest.len() == 0 || (rest[0] != ']' && !insert::is_bare(rest[0])),
    ensures
        insert::next_identifier(ahead + (said + rest)) == Some((name, rest)),
{
    if said == seq!['['] + client::doubled(name, ']') + seq![']'] {
        lemma_bracketed_names_are_read(ahead, name, rest);
    } else {
        lemma_bare_names_are_read(ahead, name, rest);
    }
}

/// True of `text` that is a literal of `bytes`: a string, with its `N` or
/// without, or digits in either case.
pub open spec fn stands_for(text: Seq<char>, bytes: Seq<u8>) -> bool {
    ||| exists|said: Seq<char>|
        bytes == encode_utf8(said) && (text == seq!['\''] + #[trigger] client::doubled(said, '\'')
            + seq!['\''] || text == seq!['N'] + (seq!['\''] + client::doubled(said, '\'') + seq![
            '\'',
        ]))
    ||| text.len() >= 2 && binary::literal_bytes(text) == Some(bytes)
}

/// A literal is read up to what neither quotes nor digits go on with.
proof fn lemma_a_literal_is_read(
    ahead: Seq<char>,
    said: Seq<char>,
    bytes: Seq<u8>,
    rest: Seq<char>,
)
    requires
        is_blank(ahead),
        stands_for(said, bytes),
        rest.len() == 0 || (rest[0] != '\'' && number::hex_value(rest[0]) is None),
    ensures
        insert::next_literal(ahead + (said + rest)) == Some((bytes, rest)),
{
    if text_of_a_string(said, bytes) {
        let t = choose|t: Seq<char>|
            bytes == encode_utf8(t) && (said == seq!['\''] + #[trigger] client::doubled(t, '\'')
                + seq!['\''] || said == seq!['N'] + (seq!['\''] + client::doubled(t, '\'') + seq![
                '\'',
            ]));
        lemma_string_literals_are_read(ahead, t, rest);
        let quoted = seq!['\''] + client::doubled(t, '\'') + seq!['\''];
        if said == quoted {
        } else {
            assert(said + rest =~= seq!['N'] + (quoted + rest));
        }
    } else {
        let digits = said.skip(2);
        assert forall|i: int| 0 <= i < digits.len() implies '0' <= #[trigger] digits[i] <= '9'
            || 'a' <= digits[i] <= 'f' || 'A' <= digits[i] <= 'F' by {
            assert(number::hex_value(said[i + 2]) is Some);
        }
        lemma_binary_literals_are_read(ahead, said[1], digits, rest);
        assert(said =~= seq!['0', said[1]] + digits);
    }
}

/// True of `text` that is a string literal of `bytes`.
spec fn text_of_a_string(text: Seq<char>, bytes: Seq<u8>) -> bool {
    exists|said: Seq<char>|
        bytes == encode_utf8(said) && (text == seq!['\''] + #[trigger] client::doubled(said, '\'')
            + seq!['\''] || text == seq!['N'] + (seq!['\''] + client::doubled(said, '\'') + seq![
            '\'',
        ]))
}

/// A name in parentheses is read, white space wherever it may stand.
#[verifier::spinoff_prover]
proof fn lemma_a_column_is_read(
    w: Seq<Seq<char>>,
    said: Seq<char>,
    name: Seq<char>,
    rest: Seq<char>,
)
    requires
        w.len() == 3,
        is_blank(w[0]) && is_blank(w[1]) && is_blank(w[2]),
        names(said, name),
        w[2].len() > 0 ==> !insert::is_bare(w[2][0]),
    ensures
        insert::next_column_name(
            w[0] + (seq!['('] + (w[1] + (said + (w[2] + (seq![')'] + rest))))),
        ) == Some((name, rest)),
{
    let closed = w[2] + (seq![')'] + rest);
    let inner = w[1] + (said + closed);
    lemma_signs_are_read(w[0], '(', ')', inner);
    lemma_signs_are_read(w[2], ')', '(', rest);
    if w[2].len() > 0 {
        assert(closed[0] == w[2][0]);
        assert(text::is_space(w[2][0]));
    } else {
        assert(closed[0] == ')');
    }
    lemma_a_name_is_read(w[1], said, name, closed);
}

/// A literal in parentheses is read, white space wherever it may stand.
#[verifier::spinoff_prover]
proof fn lemma_a_value_is_read(
    w: Seq<Seq<char>>,
    said: Seq<char>,
    bytes: Seq<u8>,
    rest: Seq<char>,
)
    requires
        w.len() == 3,
        is_blank(w[0]) && is_blank(w[1]) && is_blank(w[2]),
        stands_for(said, bytes),
    ensures
        insert::next_value(w[0] + (seq!['('] + (w[1] + (said + (w[2] + (seq![')'] + rest))))))
            == Some((bytes, rest)),
{
    let closed = w[2] + (seq![')'] + rest);
    let inner = w[1] + (said + closed);
    lemma_signs_are_read(w[0], '(', ')', inner);
    lemma_signs_are_read(w[2], ')', '(', rest);
    if w[2].len() > 0 {
        assert(closed[0] == w[2][0]);
        assert(text::is_space(w[2][0]));
    } else {
        assert(closed[0] == ')');
    }
    lemma_a_literal_is_read(w[1], said, bytes, closed);
}

/// An INSERT of one column is taken apart however it is written: its keywords
/// in whatever case, its names bare or bracketed, its literal of any form,
/// white space wherever it may stand, and a semicolon at its end or not.
pub proof fn lemma_any_insert_is_taken_apart(
    insert: Seq<char>,
    into: Seq<char>,
    values: Seq<char>,
    w: Seq<Seq<char>>,
    table: Seq<char>,
    table_name: Seq<char>,
    column: Seq<char>,
    column_name: Seq<char>,
    literal: Seq<char>,
    bytes: Seq<u8>,
    end: Seq<char>,
)
    requires
        spelled(insert, seq!['I', 'N', 'S', 'E', 'R', 'T']),
        spelled(into, seq!['I', 'N', 'T', 'O']),
        spelled(values, seq!['V', 'A', 'L', 'U', 'E', 'S']),
        w.len() == 12,
        forall|i: int| 0 <= i < 12 ==> is_blank(#[trigger] w[i]),
        forall|i: int| 0 <= i < 12 && (#[trigger] w[i]).len() > 0 ==> !insert::is_bare(w[i][0]),
        w[1].len() > 0,
        w[2].len() > 0,
        names(table, table_name),
        names(column, column_name),
        stands_for(literal, bytes),
        end.len() == 0 || end == seq![';'],
    ensures
        insert::insert_in(
            w[0] + (insert + (w[1] + (into + (w[2] + (table + (w[3] + (seq!['('] + (w[4] + (column
                + (w[5] + (seq![')'] + (w[6] + (values + (w[7] + (seq!['('] + (w[8] + (literal + (
            w[9] + (seq![')'] + (w[10] + end + w[11])))))))))))))))))))),
        ) == Some((table_name, column_name, bytes)),
{
    let s6 = w[10] + end + w[11];
    let s5 = w[7] + (seq!['('] + (w[8] + (literal + (w[9] + (seq![')'] + s6)))));
    let s4 = w[6] + (values + s5);
    let s3 = w[3] + (seq!['('] + (w[4] + (column + (w[5] + (seq![')'] + s4)))));
    let s2 = w[2] + (table + s3);
    let s1 = w[1] + (into + s2);
    lemma_words();
    assert(s1[0] == w[1][0] && s2[0] == w[2][0]);
    assert(!insert::is_bare(w[1][0]) && !insert::is_bare(w[2][0]));
    lemma_not_bare_behind(w[3], '(', w[4] + (column + (w[5] + (seq![')'] + s4))));
    lemma_not_bare_behind(w[7], '(', w[8] + (literal + (w[9] + (seq![')'] + s6))));
    lemma_keywords_are_read(w[0], insert, "INSERT"@, s1);
    lemma_keywords_are_read(w[1], into, "INTO"@, s2);
    lemma_a_name_is_read(w[2], table, table_name, s3);
    lemma_a_column_is_read(seq![w[3], w[4], w[5]], column, column_name, s4);
    lemma_keywords_are_read(w[6], values, "VALUES"@, s5);
    lemma_a_value_is_read(seq![w[7], w[8], w[9]], literal, bytes, s6);
    lemma_a_statement_ends(w[10], end, w[11]);
}

/// What stands behind white space and a parenthesis goes on no name.
proof fn lemma_not_bare_behind(ahead: Seq<char>, c: char, rest: Seq<char>)
    requires
        is_blank(ahead),
        ahead.len() > 0 ==> !insert::is_bare(ahead[0]),
        c == '(',
    ensures
        ({
            let s = ahead + (seq![c] + rest);
            s.len() > 0 && !insert::is_bare(s[0]) && s[0] != ']'
        }),
{
    let s = ahead + (seq![c] + rest);
    if ahead.len() > 0 {
        assert(s[0] == ahead[0]);
        assert(text::is_space(ahead[0]));
    } else {
        assert(s[0] == c);
    }
}

/// The three keywords, letter by letter.
proof fn lemma_words()
    ensures
        "INSERT"@ == seq!['I', 'N', 'S', 'E', 'R', 'T'] && is_word("INSERT"@),
        "INTO"@ == seq!['I', 'N', 'T', 'O'] && is_word("INTO"@),
        "VALUES"@ == seq!['V', 'A', 'L', 'U', 'E', 'S'] && is_word("VALUES"@),
{
    reveal_strlit("INSERT");
    reveal_strlit("INTO");
    reveal_strlit("VALUES");
    assert("INSERT"@ =~= seq!['I', 'N', 'S', 'E', 'R', 'T']);
    assert("INTO"@ =~= seq!['I', 'N', 'T', 'O']);
    assert("VALUES"@ =~= seq!['V', 'A', 'L', 'U', 'E', 'S']);
}

/// What is not an INSERT of one column is none: where a keyword, a name, a
/// column in parentheses, a value in parentheses or the end is not where it
/// is due.
pub proof fn lemma_anything_else_is_no_insert(
    s: Seq<char>,
    s1: Seq<char>,
    s2: Seq<char>,
    table: Seq<char>,
    s3: Seq<char>,
    column: Seq<char>,
    s4: Seq<char>,
    s5: Seq<char>,
    bytes: Seq<u8>,
    s6: Seq<char>,
)
    ensures
        ({
            let a = insert::after_keyword(s, seq!['I', 'N', 'S', 'E', 'R', 'T']);
            let b = insert::after_keyword(s1, seq!['I', 'N', 'T', 'O']);
            let c = insert::next_identifier(s2);
            let d = insert::next_column_name(s3);
            let e = insert::after_keyword(s4, seq!['V', 'A', 'L', 'U', 'E', 'S']);
            let f = insert::next_value(s5);
            ||| a is None
            ||| a == Some(s1) && b is None
            ||| a == Some(s1) && b == Some(s2) && c is None
            ||| a == Some(s1) && b == Some(s2) && c == Some((table, s3)) && d is None
            ||| a == Some(s1) && b == Some(s2) && c == Some((table, s3)) && d == Some((column, s4))
                && e is None
            ||| a == Some(s1) && b == Some(s2) && c == Some((table, s3)) && d == Some((column, s4))
                && e == Some(s5) && f is None
            ||| a == Some(s1) && b == Some(s2) && c == Some((table, s3)) && d == Some((column, s4))
                && e == Some(s5) && f == Some((bytes, s6)) && !insert::at_the_end(s6)
        }) ==> insert::insert_in(s) is None,
{
    lemma_words();
}

/// A column or a value without its parentheses is none.
pub proof fn lemma_parentheses_are_due(s: Seq<char>, rest: Seq<char>, name: Seq<char>, bytes: Seq<u8>)
    ensures
        insert::after_char(s, '(') is None ==> insert::next_column_name(s) is None
            && insert::next_value(s) is None,
        insert::after_char(s, '(') matches Some(inner) ==> {
            &&& insert::next_identifier(inner) is None ==> insert::next_column_name(s) is None
            &&& insert::next_literal(inner) is None ==> insert::next_value(s) is None
            &&& insert::next_identifier(inner) == Some((name, rest)) && insert::after_char(
                rest,
                ')',
            ) is None ==> insert::next_column_name(s) is None
            &&& insert::next_literal(inner) == Some((bytes, rest)) && insert::after_char(
                rest,
                ')',
            ) is None ==> insert::next_value(s) is None
        },
{
}

/// A statement whose parts stand where they are due, and which ends behind
/// them, is an INSERT of them.
pub proof fn lemma_parts_in_their_places_are_an_insert(
    s: Seq<char>,
    s1: Seq<char>,
    s2: Seq<char>,
    table: Seq<char>,
    s3: Seq<char>,
    column: Seq<char>,
    s4: Seq<char>,
    s5: Seq<char>,
    bytes: Seq<u8>,
    s6: Seq<char>,
)
    requires
        insert::after_keyword(s, seq!['I', 'N', 'S', 'E', 'R', 'T']) == Some(s1),
        insert::after_keyword(s1, seq!['I', 'N', 'T', 'O']) == Some(s2),
        insert::next_identifier(s2) == Some((table, s3)),
        insert::next_column_name(s3) == Some((column, s4)),
        insert::after_keyword(s4, seq!['V', 'A', 'L', 'U', 'E', 'S']) == Some(s5),
        insert::next_value(s5) == Some((bytes, s6)),
        insert::at_the_end(s6),
    ensures
        insert::insert_in(s) == Some((table, column, bytes)),
{
    lemma_words();
}

/// A column and a value are what stands in their parentheses.
pub proof fn lemma_parentheses_hold_a_column_or_a_value(
    s: Seq<char>,
    inner: Seq<char>,
    name: Seq<char>,
    bytes: Seq<u8>,
    rest: Seq<char>,
    behind: Seq<char>,
)
    requires
        insert::after_char(s, '(') == Some(inner),
        insert::after_char(rest, ')') == Some(behind),
    ensures
        insert::next_identifier(inner) == Some((name, rest)) ==> insert::next_column_name(s)
            == Some((name, behind)),
        insert::next_literal(inner) == Some((bytes, rest)) ==> insert::next_value(s) == Some(
            (bytes, behind),
        ),
{
}

} // verus!
