//! A SQL batch behind its headers.

use xmip_core_transport_mssql::batch::{encode_batch, read_batch};

#[test]
fn a_batch_round_trips_behind_its_headers() {
    let bytes = encode_batch("SELECT 1");
    assert_eq!(&bytes[..4], &[22, 0, 0, 0]);
    assert_eq!(&bytes[8..10], &[2, 0], "the transaction header");
    assert_eq!(bytes.len(), 22 + 16);
    assert_eq!(read_batch(&bytes).expect("read"), "SELECT 1");
    assert_eq!(read_batch(&encode_batch("")).expect("read"), "");
}

#[test]
fn headers_that_are_not_headers_are_refused() {
    assert!(read_batch(&[2, 0, 0, 0]).is_err(), "under four");
    assert!(read_batch(&[40, 0, 0, 0, 0, 0]).is_err(), "past the batch");
    assert!(read_batch(&[0, 0]).is_err(), "no length at all");
}

#[test]
fn each_refusal_of_headers_says_why() {
    let refused = |bytes: &[u8]| read_batch(bytes).expect_err("refused").message;
    assert_eq!(refused(&[3, 0, 0, 0]), "a headers length under four");
    assert_eq!(refused(&[40, 0, 0, 0]), "headers that run past the batch");
    assert_eq!(refused(&[0]), "a field that runs past the message");
    assert_eq!(read_batch(&[4, 0, 0, 0, b'x', 0]).expect("no headers"), "x");
}
