//! Column types and the values in their cells.

use xmip_core_transport_mssql::column::{
    read_plp, read_type_info, read_value, write_plp, write_type_info, write_value, Column,
    ColumnType, MAX, PLP_UNKNOWN,
};
use xmip_core_transport_mssql::wire::Cursor;

fn round_trip(kind: ColumnType, value: Option<&str>) -> Option<String> {
    let mut out = Vec::new();
    write_type_info(&mut out, kind);
    write_value(&mut out, kind, value);
    let mut cursor = Cursor::new(&out);
    assert_eq!(read_type_info(&mut cursor).expect("type"), kind);
    let read = read_value(&mut cursor, kind).expect("value");
    assert!(cursor.is_empty(), "nothing left over");
    read
}

#[test]
fn every_type_round_trips_with_its_null() {
    assert_eq!(
        round_trip(ColumnType::IntN(4), Some("41")),
        Some("41".into())
    );
    assert_eq!(
        round_trip(ColumnType::IntN(8), Some("-9")),
        Some("-9".into())
    );
    assert_eq!(
        round_trip(ColumnType::IntN(2), Some("-2")),
        Some("-2".into())
    );
    assert_eq!(round_trip(ColumnType::IntN(1), Some("7")), Some("7".into()));
    assert_eq!(round_trip(ColumnType::IntN(4), None), None);
    assert_eq!(round_trip(ColumnType::Int, Some("3")), Some("3".into()));
    assert_eq!(
        round_trip(ColumnType::BigInt, None),
        Some("0".into()),
        "no null"
    );
    assert_eq!(round_trip(ColumnType::Bit, Some("true")), Some("1".into()));
    assert_eq!(round_trip(ColumnType::BitN, Some("0")), Some("0".into()));
    assert_eq!(round_trip(ColumnType::BitN, None), None);
    assert_eq!(
        round_trip(ColumnType::NVarChar(MAX), Some("räk")),
        Some("räk".into())
    );
    assert_eq!(
        round_trip(ColumnType::NVarChar(MAX), Some("")),
        Some(String::new())
    );
    assert_eq!(round_trip(ColumnType::NVarChar(MAX), None), None);
    assert_eq!(
        round_trip(ColumnType::NVarChar(80), Some("short")),
        Some("short".into())
    );
    assert_eq!(round_trip(ColumnType::NVarChar(80), None), None);
    assert_eq!(
        round_trip(ColumnType::VarChar(MAX), Some("ISA*00*")),
        Some("ISA*00*".into())
    );
    assert_eq!(
        round_trip(ColumnType::VarChar(10), Some("x")),
        Some("x".into())
    );
    assert_eq!(
        round_trip(ColumnType::VarBinary(MAX), Some("0xfffe")),
        Some("0xfffe".into())
    );
    assert_eq!(
        round_trip(ColumnType::VarBinary(8), Some("0x00")),
        Some("0x00".into())
    );
    assert_eq!(round_trip(ColumnType::VarBinary(8), None), None);
    assert_eq!(
        round_trip(ColumnType::VarBinary(MAX), Some("ab")),
        Some("0x6162".into())
    );
    let long = "y".repeat(70_000);
    assert_eq!(
        round_trip(ColumnType::VarChar(MAX), Some(&long)),
        Some(long),
        "two chunks"
    );
}

#[test]
fn what_this_crate_does_not_read_is_refused_by_name() {
    let error = read_type_info(&mut Cursor::new(&[0x2A, 7])).expect_err("datetime2");
    assert!(error.message.contains("0x2a"));
    assert!(read_value(&mut Cursor::new(&[3, 0, 0, 0]), ColumnType::IntN(3)).is_err());
    let mut plp = Vec::new();
    plp.extend_from_slice(&5u64.to_le_bytes());
    plp.extend_from_slice(&2u32.to_le_bytes());
    plp.extend_from_slice(b"ab");
    plp.extend_from_slice(&0u32.to_le_bytes());
    assert!(read_plp(&mut Cursor::new(&plp)).is_err(), "does not add up");
    plp[..8].copy_from_slice(&PLP_UNKNOWN.to_le_bytes());
    assert_eq!(
        read_plp(&mut Cursor::new(&plp)).expect("unknown total"),
        Some(b"ab".to_vec())
    );
    let short = [1, 0, 0, 0, 0, 0, 0, 0, 5, 0, 0, 0, b'a'];
    assert!(read_plp(&mut Cursor::new(&short)).is_err(), "breaks off");
}

#[test]
fn each_refusal_of_a_value_says_why() {
    assert_eq!(
        read_type_info(&mut Cursor::new(&[0x2A, 7]))
            .expect_err("datetime2")
            .message,
        "column type 0x2a is not one this crate reads; cast it in the query"
    );
    assert_eq!(
        read_value(&mut Cursor::new(&[3, 0, 0, 0]), ColumnType::IntN(3))
            .expect_err("three")
            .message,
        "an integer 3 bytes wide"
    );
    let mut plp = Vec::new();
    write_plp(&mut plp, Some(b"ab"));
    plp[0] = 5;
    assert_eq!(
        read_plp(&mut Cursor::new(&plp)).expect_err("five").message,
        "chunks that do not add up to their total"
    );
    assert_eq!(
        read_value(&mut Cursor::new(&[]), ColumnType::Bit)
            .expect_err("nothing")
            .message,
        "a field that runs past the message"
    );
}

#[test]
fn integers_are_held_to_their_width() {
    assert_eq!(
        round_trip(ColumnType::IntN(1), Some("300")),
        Some("44".into())
    );
    assert_eq!(
        round_trip(ColumnType::IntN(1), Some("-1")),
        Some("-1".into())
    );
    assert_eq!(
        round_trip(ColumnType::IntN(2), Some("40000")),
        Some("-25536".into())
    );
    assert_eq!(
        round_trip(ColumnType::IntN(4), Some("-2147483649")),
        Some("2147483647".into())
    );
    assert_eq!(
        round_trip(ColumnType::IntN(8), Some("-9223372036854775808")),
        Some("-9223372036854775808".into())
    );
    assert_eq!(round_trip(ColumnType::IntN(0), Some("5")), None);
    assert_eq!(
        round_trip(ColumnType::Int, Some("2147483648")),
        Some("0".into()),
        "past four bytes"
    );
    assert_eq!(
        round_trip(ColumnType::BigInt, Some("9223372036854775807")),
        Some("9223372036854775807".into())
    );
    assert_eq!(
        round_trip(ColumnType::BigInt, Some(" +12\n")),
        Some("12".into()),
        "white space and a sign"
    );
    assert_eq!(
        round_trip(ColumnType::BigInt, Some("twelve")),
        Some("0".into())
    );
}

#[test]
fn a_bit_is_one_of_four_spellings() {
    for set in ["1", "true", "True", "TRUE", " 1 "] {
        assert_eq!(round_trip(ColumnType::Bit, Some(set)), Some("1".into()));
    }
    for clear in ["0", "tRUE", "yes", ""] {
        assert_eq!(round_trip(ColumnType::BitN, Some(clear)), Some("0".into()));
    }
    assert_eq!(round_trip(ColumnType::Bit, None), Some("0".into()));
}

#[test]
fn a_value_once_read_is_kept() {
    for (kind, value) in [
        (ColumnType::IntN(2), Some("40000")),
        (ColumnType::Int, None),
        (ColumnType::BigInt, Some("x")),
        (ColumnType::Bit, Some("True")),
        (ColumnType::VarBinary(MAX), Some("ab")),
        (ColumnType::VarChar(9), Some("räk")),
    ] {
        let once = round_trip(kind, value);
        assert_eq!(round_trip(kind, once.as_deref()), once);
    }
}

#[test]
fn a_short_column_cuts_what_its_length_cannot_count() {
    let mut out = Vec::new();
    let long = "y".repeat(65_536);
    write_value(&mut out, ColumnType::VarChar(10), Some(&long));
    assert_eq!(out.len(), 2 + 65_534);
    assert_eq!(&out[..2], &[0xFE, 0xFF]);
    let whole = "y".repeat(65_534);
    assert_eq!(
        round_trip(ColumnType::VarChar(10), Some(&whole)),
        Some(whole)
    );
}

#[test]
fn a_value_as_long_as_the_null_mark_is_cut_and_is_not_null() {
    let whole = "y".repeat(65_534);
    for length in [65_535, 65_536, 70_000] {
        let long = "y".repeat(length);
        let mut out = Vec::new();
        write_value(&mut out, ColumnType::VarChar(10), Some(&long));
        assert_eq!(&out[..2], &[0xFE, 0xFF], "{length}");
        assert_eq!(out.len(), 2 + 65_534, "{length}");
        assert_eq!(
            round_trip(ColumnType::VarChar(10), Some(&long)),
            Some(whole.clone()),
            "{length}"
        );
    }
    let mut null = Vec::new();
    write_value(&mut null, ColumnType::VarChar(10), None);
    assert_eq!(null, [0xFF, 0xFF], "null alone");
    let literal = format!("0x{}", "ab".repeat(65_535));
    let held = format!("0x{}", "ab".repeat(65_534));
    assert_eq!(
        round_trip(ColumnType::VarBinary(10), Some(&literal)),
        Some(held.clone())
    );
    assert_eq!(
        round_trip(ColumnType::VarBinary(10), Some(&held)),
        Some(held),
        "kept the second time"
    );
    assert_eq!(
        round_trip(ColumnType::VarChar(MAX), Some(&"y".repeat(65_535))),
        Some("y".repeat(65_535)),
        "(MAX) holds it whole"
    );
}

#[test]
fn a_short_column_may_cut_a_character_in_two() {
    let long = "\u{1D11E}".repeat(20_000);
    let once = round_trip(ColumnType::NVarChar(10), Some(&long)).expect("not null");
    assert_eq!(once, format!("{}\u{FFFD}", "\u{1D11E}".repeat(16_383)));
    assert_eq!(
        round_trip(ColumnType::NVarChar(10), Some(&once)),
        Some(once.clone()),
        "kept the second time"
    );
}

#[test]
fn bytes_that_are_not_utf8_are_read_with_replacements() {
    let mut cursor = Cursor::new(&[3, 0, b'a', 0xFF, b'b']);
    assert_eq!(
        read_value(&mut cursor, ColumnType::VarChar(10)).expect("lossy"),
        Some("a\u{FFFD}b".into())
    );
}

#[test]
fn long_values_go_in_chunks() {
    let bytes = vec![9u8; 65_536];
    let mut out = Vec::new();
    write_plp(&mut out, Some(&bytes));
    assert_eq!(&out[..8], &65_536u64.to_le_bytes());
    assert_eq!(&out[8..12], &65_535u32.to_le_bytes());
    assert_eq!(&out[12 + 65_535..16 + 65_535], &1u32.to_le_bytes());
    assert_eq!(&out[out.len() - 4..], &[0, 0, 0, 0]);
    assert_eq!(
        read_plp(&mut Cursor::new(&out)).expect("read"),
        Some(bytes)
    );
    let mut null = Vec::new();
    write_plp(&mut null, None);
    assert_eq!(null, [0xFF; 8]);
    assert_eq!(read_plp(&mut Cursor::new(&null)).expect("null"), None);
}

#[test]
fn a_column_knows_its_name_and_type() {
    let column = Column::text("payload");
    assert_eq!(column, Column::new("payload", ColumnType::NVarChar(MAX)));
    let mut out = Vec::new();
    write_type_info(&mut out, column.kind);
    assert_eq!(out, [0xE7, 0xFF, 0xFF, 0, 0, 0, 0, 0]);
}
