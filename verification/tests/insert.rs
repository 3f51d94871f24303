//! One INSERT written and taken apart.

use xmip_core_transport_mssql::insert::{parse_insert, write_insert};

#[test]
fn an_insert_of_one_column_is_taken_apart() {
    assert_eq!(
        parse_insert("INSERT INTO inbox (payload) VALUES (N'it''s here');"),
        Some(("inbox".into(), "payload".into(), b"it's here".to_vec()))
    );
    assert_eq!(
        parse_insert("insert into [In ]]box] ( [Payload] ) values ( '' )"),
        Some(("In ]box".into(), "Payload".into(), Vec::new()))
    );
    assert_eq!(
        parse_insert("INSERT INTO dbo.inbox (payload) VALUES (0xFFfe)"),
        Some(("dbo.inbox".into(), "payload".into(), vec![0xff, 0xfe]))
    );
    assert_eq!(
        parse_insert("INSERT INTO inbox (payload) VALUES (0x)"),
        Some(("inbox".into(), "payload".into(), Vec::new()))
    );
    assert!(parse_insert("INSERT INTO inbox (a, b) VALUES ('x', 'y')").is_none());
    assert!(parse_insert("INSERT INTO inbox (a) VALUES ('open").is_none());
    assert!(parse_insert("INSERT INTO inbox (a) VALUES (0xabc)").is_none());
    assert!(parse_insert("INSERT INTO [open (a) VALUES ('x')").is_none());
    assert!(parse_insert("UPDATE inbox SET a = 'x'").is_none());
}

#[test]
fn what_is_written_is_taken_apart_again() {
    let every: Vec<u8> = (0..=255).collect();
    for (table, column, bytes) in [
        ("inbox", "payload", b"it's here".to_vec()),
        ("In ]box", "pay[load]", Vec::new()),
        ("", "''", b"0x41".to_vec()),
        ("räksmörgås", "𝄞", "räk 'n' 𝄞".as_bytes().to_vec()),
        ("t", "c", every),
        ("t", "c", vec![0; 3]),
    ] {
        assert_eq!(
            parse_insert(&write_insert(table, column, &bytes)),
            Some((table.to_string(), column.to_string(), bytes))
        );
    }
}

#[test]
fn text_is_written_as_text_and_the_rest_in_hexadecimal() {
    assert_eq!(
        write_insert("inbox", "payload", b"it's"),
        "INSERT INTO [inbox] ([payload]) VALUES (N'it''s')"
    );
    assert_eq!(
        write_insert("in]box", "payload", &[0xff, 0x00]),
        "INSERT INTO [in]]box] ([payload]) VALUES (0xff00)"
    );
}

#[test]
fn identifiers_may_be_bare_in_any_script() {
    assert_eq!(
        parse_insert("INSERT INTO #räk_2.dbo@x (å) VALUES ('1')"),
        Some(("#räk_2.dbo@x".into(), "å".into(), b"1".to_vec()))
    );
    assert!(parse_insert("INSERT INTO in-box (a) VALUES ('1')").is_none());
    assert!(parse_insert("INSERT INTO (a) VALUES ('1')").is_none());
}

#[test]
fn keywords_are_words_in_any_case() {
    let taken = Some(("t".to_string(), "c".to_string(), b"1".to_vec()));
    assert_eq!(parse_insert(" \n iNsErT\tInTo t(c)VaLuEs('1') ; "), taken);
    assert!(parse_insert("INSERTINTO t (c) VALUES ('1')").is_none());
    assert!(parse_insert("INSERT INTO t (c) VALUESX ('1')").is_none());
    assert!(parse_insert("INSERT INTO t (c) VALUES ('1') x").is_none());
    assert!(parse_insert("INSERT INTO t (c) VALUES ('1');;").is_none());
    assert!(parse_insert("INSERT INTO t (c) VALUES (N '1')").is_none());
    assert!(parse_insert("INSERT INTO t (c) VALUES (1)").is_none());
}
