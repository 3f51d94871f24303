//! The token stream.

use xmip_core_transport_mssql::column::{Column, ColumnType, MAX};
use xmip_core_transport_mssql::token::{
    encode_tokens, Message, Token, TokenStream, DONE, DONE_COUNT, DONE_ERROR, DONE_MORE,
    ENV_DATABASE, ERROR, NBCROW, ORDER, RETURNSTATUS,
};

fn read_all(bytes: &[u8]) -> Vec<Token> {
    let mut stream = TokenStream::new(bytes);
    let mut read = Vec::new();
    while let Some(token) = stream.next_token().expect("read") {
        read.push(token);
    }
    read
}

#[test]
fn every_token_round_trips() {
    let tokens = vec![
        Token::EnvChange {
            kind: ENV_DATABASE,
            new: "orders".into(),
            old: "master".into(),
        },
        Token::Info(Message::new(
            5701,
            0,
            "Changed database context to 'orders'.",
        )),
        Token::LoginAck {
            version: 0x7400_0004,
            program: "Microsoft SQL Server".into(),
        },
        Token::ColMetadata(vec![
            Column::new("id", ColumnType::IntN(4)),
            Column::text("payload"),
            Column::new("raw", ColumnType::VarBinary(MAX)),
            Column::new("flag", ColumnType::BitN),
        ]),
        Token::Row(vec![
            Some("41".into()),
            Some("ISA*00*".into()),
            None,
            Some("1".into()),
        ]),
        Token::Row(vec![None, None, Some("0xfffe".into()), None]),
        Token::Order(vec![1]),
        Token::DoneInProc {
            status: DONE_COUNT | DONE_MORE,
            rows: 2,
        },
        Token::ReturnStatus(-1),
        Token::DoneProc {
            status: DONE_MORE,
            rows: 0,
        },
        Token::Error(Message::new(18456, 14, "Login failed for user 'xmip'.")),
        Token::Done {
            status: DONE_ERROR,
            rows: 0,
        },
    ];
    let bytes = encode_tokens(&tokens);
    let mut stream = TokenStream::new(&bytes);
    let mut read = Vec::new();
    while let Some(token) = stream.next_token().expect("read") {
        read.push(token);
    }
    assert_eq!(read, tokens);
    assert_eq!(stream.columns().len(), 4);
}

#[test]
fn a_null_bitmap_row_reads_by_its_columns() {
    let mut bytes = encode_tokens(&[Token::ColMetadata(vec![
        Column::new("id", ColumnType::Int),
        Column::text("payload"),
    ])]);
    bytes.push(NBCROW);
    bytes.push(0b10); // the second column is null
    bytes.extend_from_slice(&7i32.to_le_bytes());
    let mut stream = TokenStream::new(&bytes);
    stream.next_token().expect("metadata");
    assert_eq!(
        stream.next_token().expect("row"),
        Some(Token::Row(vec![Some("7".into()), None]))
    );
    assert!(stream.next_token().expect("end").is_none());
}

#[test]
fn what_is_not_a_token_is_refused() {
    assert!(TokenStream::new(&[0x00]).next_token().is_err(), "unknown");
    assert!(
        TokenStream::new(&[ERROR, 40, 0, 1]).next_token().is_err(),
        "breaks off"
    );
    assert!(
        TokenStream::new(&[DONE, 0, 0]).next_token().is_err(),
        "short"
    );
    let empty = encode_tokens(&[Token::ColMetadata(Vec::new())]);
    assert_eq!(&empty[1..], &[0xFF, 0xFF]);
    assert_eq!(
        TokenStream::new(&empty).next_token().expect("read"),
        Some(Token::ColMetadata(Vec::new()))
    );
}

#[test]
fn each_refusal_of_a_token_says_why() {
    let refused = |bytes: &[u8]| {
        TokenStream::new(bytes)
            .next_token()
            .expect_err("refused")
            .message
    };
    assert_eq!(refused(&[0x00]), "token 0x00 is not one this crate reads");
    assert_eq!(
        refused(&[ERROR, 40, 0, 1]),
        "a field that runs past the message"
    );
    assert_eq!(
        refused(&[ORDER, 3, 0, 1, 0, 2]),
        "a field that runs past the message",
        "half a number"
    );
    assert_eq!(
        refused(&[0x81, 1, 0, 0, 0, 0, 0, 0, 0, 0x2A]),
        "column type 0x2a is not one this crate reads; cast it in the query"
    );
}

#[test]
fn a_bitmap_takes_a_bit_for_each_column() {
    let names: Vec<Column> = (0..9)
        .map(|n| Column::new(&format!("c{n}"), ColumnType::IntN(1)))
        .collect();
    let mut bytes = encode_tokens(&[Token::ColMetadata(names)]);
    bytes.extend_from_slice(&[NBCROW, 0b0111_1110, 0b0000_0001, 1, 5, 1, 6]);
    let read = read_all(&bytes);
    let mut expected = vec![None; 9];
    expected[0] = Some("5".to_string());
    expected[7] = Some("6".to_string());
    assert_eq!(read[1], Token::Row(expected));
}

#[test]
fn a_bitmap_marks_nothing_or_everything() {
    let columns = [Token::ColMetadata(vec![
        Column::new("a", ColumnType::IntN(1)),
        Column::new("b", ColumnType::IntN(1)),
    ])];
    let mut none = encode_tokens(&columns);
    none.extend_from_slice(&[NBCROW, 0, 1, 5, 0]);
    let mut row = encode_tokens(&columns);
    row.extend_from_slice(&[0xD1, 1, 5, 0]);
    assert_eq!(read_all(&none), read_all(&row));
    let mut all = encode_tokens(&columns);
    all.extend_from_slice(&[NBCROW, 0xFF]);
    assert_eq!(read_all(&all)[1], Token::Row(vec![None, None]));
}

#[test]
fn a_change_that_is_not_text_says_nothing() {
    let change = |kind| Token::EnvChange {
        kind,
        new: "new".into(),
        old: "old".into(),
    };
    let nothing = |kind| Token::EnvChange {
        kind,
        new: String::new(),
        old: String::new(),
    };
    let bytes = encode_tokens(&[change(6), change(7), change(0)]);
    assert_eq!(read_all(&bytes), [change(6), nothing(7), nothing(0)]);
}

#[test]
fn names_are_cut_where_their_count_ends() {
    let long = "n".repeat(300);
    let bytes = encode_tokens(&[
        Token::ColMetadata(vec![Column::text(&long)]),
        Token::LoginAck {
            version: 1,
            program: long.clone(),
        },
    ]);
    assert_eq!(
        read_all(&bytes),
        [
            Token::ColMetadata(vec![Column::text(&long[..255])]),
            Token::LoginAck {
                version: 1,
                program: long[..255].to_string(),
            },
        ]
    );
}

#[test]
fn tokens_are_on_the_wire_as_the_protocol_has_them() {
    assert_eq!(
        encode_tokens(&[Token::Done {
            status: DONE_COUNT,
            rows: 258,
        }]),
        [0xFD, 0x10, 0, 0, 0, 2, 1, 0, 0, 0, 0, 0, 0]
    );
    assert_eq!(
        encode_tokens(&[Token::ReturnStatus(-2)]),
        [RETURNSTATUS, 0xFE, 0xFF, 0xFF, 0xFF]
    );
    assert_eq!(
        encode_tokens(&[Token::Order(vec![1, 0x0203])]),
        [ORDER, 4, 0, 1, 0, 3, 2]
    );
    assert_eq!(
        encode_tokens(&[Token::LoginAck {
            version: 0x7400_0004,
            program: "x".into(),
        }]),
        [0xAD, 12, 0, 1, 0x74, 0, 0, 4, 1, b'x', 0, 16, 0, 0, 0]
    );
    assert_eq!(
        encode_tokens(&[Token::Error(Message::new(258, 14, "e"))]),
        [0xAA, 16, 0, 2, 1, 0, 0, 1, 14, 1, 0, b'e', 0, 0, 0, 1, 0, 0, 0]
    );
}

#[test]
fn a_row_ahead_of_any_columns_is_empty() {
    let bytes = encode_tokens(&[Token::Row(vec![Some("lost".into())])]);
    assert_eq!(bytes, [0xD1]);
    assert_eq!(read_all(&bytes), [Token::Row(Vec::new())]);
}

#[test]
fn no_columns_alone_are_counted_as_none() {
    let declare = |count: usize| {
        let columns: Vec<Column> = (0..count)
            .map(|_| Column::new("", ColumnType::BitN))
            .collect();
        encode_tokens(&[Token::ColMetadata(columns)])
    };
    assert_eq!(declare(0), [0x81, 0xFF, 0xFF]);
    let most = declare(65_534);
    assert_eq!(&most[..3], &[0x81, 0xFE, 0xFF]);
    let mut stream = TokenStream::new(&most);
    stream.next_token().expect("metadata");
    assert_eq!(stream.columns().len(), 65_534);
    assert!(stream.next_token().expect("end").is_none());
    for count in [65_535, 65_536] {
        let bytes = declare(count);
        assert_eq!(&bytes[..3], &[0x81, 0xFE, 0xFF], "{count}");
        assert_eq!(bytes.len(), 3 + 9 * count, "{count}");
        let mut stream = TokenStream::new(&bytes);
        stream.next_token().expect("metadata");
        assert_eq!(stream.columns().len(), 65_534, "{count}");
    }
}
