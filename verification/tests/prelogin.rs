//! The pre-login.

use xmip_core_transport_mssql::prelogin::{
    encode_prelogin, read_prelogin, Prelogin, ENCRYPTION, ENCRYPT_NOT_SUP, ENCRYPT_OFF,
    ENCRYPT_REQ, INSTOPT, MARS, TERMINATOR, THREADID, VERSION,
};

#[test]
fn a_prelogin_round_trips_and_its_table_is_where_the_spec_puts_it() {
    let prelogin = Prelogin {
        version: [16, 0, 4, 0, 0, 1],
        encryption: ENCRYPT_REQ,
        instance: "SQLEXPRESS".into(),
        thread_id: 0x1234,
        mars: true,
    };
    let bytes = encode_prelogin(&prelogin);
    assert_eq!(
        &bytes[..5],
        &[VERSION, 0, 26, 0, 6],
        "the first option at 26"
    );
    assert_eq!(bytes[25], TERMINATOR);
    assert_eq!(read_prelogin(&bytes).expect("read"), prelogin);
    let plain = encode_prelogin(&Prelogin::default());
    let read = read_prelogin(&plain).expect("read");
    assert_eq!(read.encryption, ENCRYPT_NOT_SUP);
    assert!(read.instance.is_empty());
    assert!(!read.mars);
}

#[test]
fn what_is_missing_is_defaulted_and_what_is_wrong_is_refused() {
    let server = [
        ENCRYPTION,
        0,
        11,
        0,
        1,
        THREADID,
        0,
        12,
        0,
        0,
        TERMINATOR,
        ENCRYPT_OFF,
    ];
    let read = read_prelogin(&server).expect("read");
    assert_eq!(read.encryption, ENCRYPT_OFF);
    assert_eq!(read.thread_id, 0, "an empty thread id");
    assert!(
        read_prelogin(&[VERSION, 0, 6, 0, 6]).is_err(),
        "no terminator"
    );
    assert!(
        read_prelogin(&[VERSION, 0, 6, 0, 60, TERMINATOR]).is_err(),
        "past the end"
    );
    assert!(
        read_prelogin(&[ENCRYPTION, 0, 6, 0, 0, TERMINATOR]).is_err(),
        "empty"
    );
}

#[test]
fn each_refusal_of_a_prelogin_says_why() {
    let refused = |bytes: &[u8]| read_prelogin(bytes).expect_err("refused").message;
    assert_eq!(
        refused(&[VERSION, 0, 5, 0, 0]),
        "a field that runs past the message"
    );
    assert_eq!(
        refused(&[VERSION, 0, 6, 0, 60, TERMINATOR]),
        "a pre-login option that points past the message"
    );
    assert_eq!(
        refused(&[ENCRYPTION, 0, 6, 0, 0, TERMINATOR]),
        "an empty encryption option"
    );
}

#[test]
fn options_are_read_as_far_as_they_go() {
    let bytes = [
        VERSION, 0, 21, 0, 2, INSTOPT, 0, 23, 0, 4, MARS, 0, 27, 0, 1, 0x77, 0, 0, 0, 1,
        TERMINATOR, 16, 9, b'a', 0xFF, 0, b'c', 5,
    ];
    let read = read_prelogin(&bytes).expect("read");
    assert_eq!(read.version, [16, 9, 0, 1, 0, 0], "the rest by default");
    assert_eq!(read.instance, "a\u{FFFD}", "up to the NUL, lossily");
    assert!(read.mars);
    assert_eq!(read.thread_id, 0);
    assert_eq!(read.encryption, ENCRYPT_NOT_SUP);
    assert_eq!(
        read_prelogin(&[TERMINATOR]).expect("an empty table"),
        Prelogin::default()
    );
}
