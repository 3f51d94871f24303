//! Packets, messages and the fields inside them.

use xmip_core_transport_mssql::wire::{
    allowed_packet_size, from_ucs2, is_packet_type, packet, packets, push_b_varchar,
    push_us_varchar, read_message, ucs2, Cursor, MessageReader, DEFAULT_PACKET_SIZE,
    END_OF_MESSAGE, HEADER_LENGTH, LOGIN7, MAX_MESSAGE, MIN_PACKET_SIZE, PRELOGIN, SQL_BATCH,
    TABULAR_RESULT,
};

#[test]
fn a_message_splits_into_packets_and_reads_back_whole() {
    let payload: Vec<u8> = (0..1500u32)
        .map(|n| u8::try_from(n % 251).expect("byte"))
        .collect();
    let bytes = packets(SQL_BATCH, &payload, MIN_PACKET_SIZE);
    assert_eq!(
        bytes.len(),
        payload.len() + 3 * HEADER_LENGTH,
        "three packets"
    );
    assert_eq!(
        &bytes[..4],
        &[SQL_BATCH, 0, 0x02, 0x00],
        "512 long, not the last"
    );
    assert_eq!(bytes[6], 0, "the first packet id");
    assert_eq!(bytes[512 + 6], 1, "the second");
    let (kind, whole) = read_message(&mut Cursor::new(&bytes))
        .expect("read")
        .expect("one");
    assert_eq!(kind, SQL_BATCH);
    assert_eq!(whole, payload);
    let empty = packets(PRELOGIN, &[], DEFAULT_PACKET_SIZE);
    assert_eq!(empty, [PRELOGIN, END_OF_MESSAGE, 0, 8, 0, 0, 0, 0]);
    assert_eq!(
        read_message(&mut Cursor::new(&empty)).expect("read"),
        Some((PRELOGIN, Vec::new()))
    );
    assert!(read_message(&mut Cursor::new(b"")).expect("closed").is_none());
}

#[test]
fn what_is_not_a_message_is_refused() {
    assert!(
        read_message(&mut Cursor::new(&[0x01, 0x01, 0, 4, 0, 0, 0, 0])).is_err(),
        "under eight"
    );
    assert!(
        read_message(&mut Cursor::new(&[0x01, 0x01, 0, 12, 0, 0, 0, 0, 1])).is_err(),
        "breaks off"
    );
    let mut two = packet(SQL_BATCH, 0, b"a", 0);
    two.extend(packet(LOGIN7, END_OF_MESSAGE, b"b", 1));
    assert!(read_message(&mut Cursor::new(&two)).is_err(), "changes type");
    let open = packet(SQL_BATCH, 0, b"a", 0);
    assert!(
        read_message(&mut Cursor::new(&open)).is_err(),
        "closed mid-message"
    );
    let error = read_message(&mut Cursor::new(b"HTTP/1.1 400 Bad Request\r\n\r\n"))
        .expect_err("not the protocol");
    assert!(error.message.contains("0x48"), "{}", error.message);
    assert!(!error.retryable);
    assert!(
        read_message(&mut Cursor::new(&[0x04, 0x01, 0x80, 0x01, 0, 0, 0, 0])).is_err(),
        "over 32767"
    );
}

#[test]
fn text_and_counted_strings_round_trip() {
    assert_eq!(ucs2("ab"), [b'a', 0, b'b', 0]);
    assert_eq!(from_ucs2(&ucs2("räksmörgås")), "räksmörgås");
    assert_eq!(from_ucs2(&[b'a', 0, b'b']), "a", "an odd byte is dropped");
    let mut body = Vec::new();
    push_b_varchar(&mut body, "id");
    push_us_varchar(&mut body, "payload");
    body.extend_from_slice(&7u16.to_le_bytes());
    body.extend_from_slice(&7u16.to_be_bytes());
    body.extend_from_slice(&(-3i32).to_le_bytes());
    body.extend_from_slice(&9u64.to_le_bytes());
    let mut cursor = Cursor::new(&body);
    assert_eq!(cursor.b_varchar().expect("b"), "id");
    assert_eq!(cursor.us_varchar().expect("us"), "payload");
    assert_eq!(cursor.u16().expect("le"), 7);
    assert_eq!(cursor.u16_be().expect("be"), 7);
    assert_eq!(cursor.i32().expect("i32"), -3);
    assert_eq!(cursor.u64().expect("u64"), 9);
    assert!(cursor.is_empty());
    assert!(cursor.byte().is_err(), "past the end");
    let long = "x".repeat(300);
    let mut body = Vec::new();
    push_b_varchar(&mut body, &long);
    assert_eq!(body[0], 255, "cut at what the count can say");
    assert_eq!(body.len(), 1 + 255 * 2);
}

#[test]
fn every_refusal_of_a_message_says_why() {
    let refused = |bytes: &[u8]| read_message(&mut Cursor::new(bytes)).expect_err("refused").message;
    assert_eq!(
        refused(&[0x01, 0x01, 0, 4, 0, 0, 0, 0]),
        "a packet shorter than its header"
    );
    assert_eq!(
        refused(&[0x04, 0x01, 0x80, 0x01, 0, 0, 0, 0]),
        "a packet longer than the protocol allows"
    );
    assert_eq!(
        refused(b"HTTP/1.1 400 Bad Request\r\n\r\n"),
        "0x48 is not a packet type; this is not the protocol"
    );
    let mut two = packet(SQL_BATCH, 0, b"a", 0);
    assert_eq!(refused(&two), "the peer closed mid-message");
    two.extend(packet(LOGIN7, END_OF_MESSAGE, b"b", 1));
    assert_eq!(refused(&two), "a packet of another type mid-message");
    assert_eq!(
        refused(&[0x01, 0x01, 0, 12, 0, 0, 0, 0, 1]),
        "a field that runs past the message"
    );
}

#[test]
fn a_message_reader_takes_packets_as_they_come() {
    let mut reader = MessageReader::new();
    assert!(reader.closed().is_ok(), "between messages");
    let first = packet(SQL_BATCH, 0, b"one ", 0);
    let mut header = [0u8; 8];
    header.copy_from_slice(&first[..8]);
    assert_eq!(reader.header(&header).expect("header"), 4);
    assert!(reader.body(b"one ").is_none(), "not the last");
    assert_eq!(
        reader.closed().expect_err("mid-message").message,
        "the peer closed mid-message"
    );
    let last = packet(SQL_BATCH, END_OF_MESSAGE, b"two", 1);
    header.copy_from_slice(&last[..8]);
    assert_eq!(reader.header(&header).expect("header"), 3);
    assert_eq!(reader.body(b"two"), Some((SQL_BATCH, b"one two".to_vec())));
    assert!(reader.closed().is_ok(), "between messages again");
}

#[test]
fn a_message_over_the_limit_is_refused() {
    let mut reader = MessageReader::new();
    let header = [TABULAR_RESULT, 0, 0x7F, 0xFF, 0, 0, 0, 0];
    let body = vec![0u8; 32767 - 8];
    let mut had = 0;
    let error = loop {
        match reader.header(&header) {
            Ok(length) => {
                assert_eq!(length, body.len());
                assert!(reader.body(&body).is_none());
                had += length;
            }
            Err(error) => break error,
        }
    };
    assert_eq!(error.message, "a message over what Xmip will read");
    assert!(had <= MAX_MESSAGE && had + body.len() > MAX_MESSAGE);
}

#[test]
fn packet_sizes_are_held_to_what_the_protocol_allows() {
    assert_eq!(allowed_packet_size(0), 512);
    assert_eq!(allowed_packet_size(511), 512);
    assert_eq!(allowed_packet_size(4096), 4096);
    assert_eq!(allowed_packet_size(32767), 32767);
    assert_eq!(allowed_packet_size(65535), 32767);
    let payload = vec![7u8; 600];
    assert_eq!(
        packets(SQL_BATCH, &payload, 1).len(),
        600 + 2 * HEADER_LENGTH
    );
}

#[test]
fn packet_ids_count_past_a_byte() {
    let payload = vec![1u8; 504 * 257];
    let bytes = packets(SQL_BATCH, &payload, MIN_PACKET_SIZE);
    assert_eq!(bytes[512 * 255 + 6], 255);
    assert_eq!(bytes[512 * 256 + 6], 0);
    let (_, whole) = read_message(&mut Cursor::new(&bytes))
        .expect("read")
        .expect("one");
    assert_eq!(whole, payload);
}

#[test]
fn what_follows_a_message_is_left() {
    let mut bytes = packets(LOGIN7, b"first", DEFAULT_PACKET_SIZE);
    bytes.extend(packets(SQL_BATCH, b"second", DEFAULT_PACKET_SIZE));
    let mut cursor = Cursor::new(&bytes);
    assert_eq!(
        read_message(&mut cursor).expect("read"),
        Some((LOGIN7, b"first".to_vec()))
    );
    assert_eq!(
        read_message(&mut cursor).expect("read"),
        Some((SQL_BATCH, b"second".to_vec()))
    );
    assert_eq!(read_message(&mut cursor).expect("read"), None);
}

#[test]
fn the_table_of_packet_types_is_the_protocols() {
    let types: Vec<u8> = (0..=255).filter(|kind| is_packet_type(*kind)).collect();
    assert_eq!(
        types,
        [0x01, 0x02, 0x03, 0x04, 0x06, 0x07, 0x08, 0x0E, 0x10, 0x11, 0x12]
    );
}

#[test]
fn integers_read_in_both_orders_and_both_signs() {
    let bytes = [
        0x04, 0x00, 0x00, 0x74, 0x74, 0x00, 0x00, 0x04, 0xFF, 0xFF, 0xFF, 0x7F, 0x00, 0x00, 0x00,
        0x80,
    ];
    let mut cursor = Cursor::new(&bytes);
    assert_eq!(cursor.u32().expect("le"), 0x7400_0004);
    assert_eq!(cursor.u32_be().expect("be"), 0x7400_0004);
    assert_eq!(cursor.i32().expect("most"), i32::MAX);
    assert_eq!(cursor.i32().expect("least"), i32::MIN);
    let mut cursor = Cursor::new(&[0x01, 0x02]);
    assert!(cursor.u32().is_err());
    assert_eq!(cursor.remaining(), [0x01, 0x02], "left as they were");
    assert!(cursor.skip(3).is_err());
    assert_eq!(cursor.take(2).expect("both"), [0x01, 0x02]);
}

#[test]
fn text_past_the_first_plane_takes_two_units() {
    assert_eq!(ucs2("𝄞"), [0x34, 0xD8, 0x1E, 0xDD]);
    assert_eq!(from_ucs2(&[0x34, 0xD8, 0x1E, 0xDD]), "𝄞");
    assert_eq!(from_ucs2(&[0x34, 0xD8, 0x61, 0x00]), "\u{FFFD}a", "half a pair");
    assert_eq!(from_ucs2(&[0x1E, 0xDD]), "\u{FFFD}", "the other half");
    let mut body = Vec::new();
    push_b_varchar(&mut body, &"𝄞".repeat(128));
    assert_eq!(body[0], 255);
    let read = Cursor::new(&body).b_varchar().expect("read");
    assert_eq!(read, format!("{}\u{FFFD}", "𝄞".repeat(127)), "cut inside a pair");
}
