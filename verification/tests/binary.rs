//! The binary literal.

use xmip_core_transport_mssql::binary::{column_bytes, from_hex_literal, hex_literal, is_text};

#[test]
fn text_is_utf8_without_a_nul() {
    assert!(is_text(b"a row"));
    assert!(is_text(b""));
    assert!(!is_text(b"a\0row"));
    assert!(!is_text(&[0xff, 0xfe]));
}

#[test]
fn bytes_round_trip_through_the_binary_literal() {
    let bytes: Vec<u8> = (0..=255).collect();
    let literal = hex_literal(&bytes);
    assert!(literal.starts_with("0x000102"));
    assert_eq!(from_hex_literal(&literal), Some(bytes.clone()));
    assert_eq!(column_bytes(literal), bytes);
    assert_eq!(hex_literal(b""), "0x");
    assert_eq!(from_hex_literal("0x"), Some(Vec::new()));
    assert_eq!(from_hex_literal("0XAB"), Some(vec![0xab]));
}

#[test]
fn what_is_not_the_literal_is_text() {
    assert_eq!(from_hex_literal("plain"), None);
    assert_eq!(from_hex_literal("0xabc"), None, "an odd digit count");
    assert_eq!(from_hex_literal("0xzz"), None, "not hex");
    assert_eq!(column_bytes("plain".to_string()), b"plain");
}

#[test]
fn a_literal_is_digits_and_nothing_else() {
    assert_eq!(from_hex_literal("0xaBcD"), Some(vec![0xab, 0xcd]));
    assert_eq!(from_hex_literal("0x+1"), None, "a sign is no digit");
    assert_eq!(from_hex_literal("0x a"), None);
    assert_eq!(from_hex_literal(" 0xab"), None);
    assert_eq!(from_hex_literal("x"), None);
    assert_eq!(from_hex_literal("0x\u{E4}"), None);
    assert_eq!(column_bytes("räk".to_string()), "räk".as_bytes());
    assert_eq!(column_bytes("0x41".to_string()), b"A", "read as the bytes it names");
    assert!(is_text("räk".as_bytes()));
    assert!(!is_text(&[0xC3]), "half a character");
}
