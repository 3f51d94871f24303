//! The login message.

use xmip_core_transport_mssql::login::{
    encode_login7, obscure, read_login7, reveal_password, Login, Login7,
};

#[test]
fn a_password_is_obscured_the_way_the_spec_draws_it() {
    // The protocol's own example: 'a' (0x61) becomes 0xB3 after the swap and XOR.
    assert_eq!(obscure(b"a"), [0xB3]);
    let secret: Vec<u8> = (0..=255).collect();
    assert_eq!(reveal_password(&obscure(&secret)), secret);
    assert_ne!(obscure(b"secret"), b"secret");
}

#[test]
fn a_login_round_trips_with_its_table_where_the_spec_puts_it() {
    let login = Login7 {
        login: Login::new("xmip", "sec'ret"),
        database: "orders".into(),
        hostname: "node-1".into(),
        app_name: "playground".into(),
        server_name: "db.example".into(),
        library: "xmip-core-transport-mssql".into(),
        language: "us_english".into(),
        packet_size: 8000,
    };
    let bytes = encode_login7(&login, 77);
    assert_eq!(&bytes[4..8], &[0x04, 0x00, 0x00, 0x74], "TDS 7.4");
    assert_eq!(&bytes[36..38], &[94, 0], "the first field at 94");
    assert_eq!(bytes.len(), 94 + 2 * (6 + 4 + 7 + 10 + 10 + 25 + 10 + 6));
    assert_eq!(read_login7(&bytes).expect("read"), login);
    let plain = encode_login7(&Login7::new(Login::new("xmip", ""), "orders"), 77);
    let read = read_login7(&plain).expect("read");
    assert_eq!(read.login.user, "xmip");
    assert!(read.login.password.is_empty());
    assert_eq!(read.hostname, "xmip");
    assert_eq!(read.packet_size, 4096);
}

#[test]
fn what_is_not_a_login_is_refused() {
    let mut old = encode_login7(&Login7::new(Login::new("x", "y"), "z"), 1);
    old[7] = 0x71;
    assert!(read_login7(&old).is_err(), "TDS 7.1");
    assert!(
        read_login7(&[0; 40]).is_err(),
        "shorter than the fixed part"
    );
    let mut wild = encode_login7(&Login7::new(Login::new("x", "y"), "z"), 1);
    wild[40] = 0xFF;
    assert!(read_login7(&wild).is_err(), "a field past the end");
}

#[test]
fn each_refusal_of_a_login_says_why() {
    let login = Login7::new(Login::new("x", "y"), "z");
    let mut old = encode_login7(&login, 1);
    old[7] = 0x71;
    assert_eq!(
        read_login7(&old).expect_err("7.1").message,
        "TDS 0x71000004 is not 7.2 to 7.4"
    );
    old[7] = 0x72;
    assert_eq!(read_login7(&old).expect("7.2"), login);
    let mut wild = encode_login7(&login, 1);
    wild[40] = 0xFF;
    assert_eq!(
        read_login7(&wild).expect_err("past").message,
        "a login field that points past the message"
    );
    let whole = encode_login7(&login, 1);
    assert_eq!(
        read_login7(&whole[..35]).expect_err("short").message,
        "a field that runs past the message"
    );
}

#[test]
fn a_login_says_its_length_its_process_and_its_flags() {
    let bytes = encode_login7(&Login7::new(Login::new("x", "y"), "z"), 0x0102_0304);
    assert_eq!(&bytes[..4], &(bytes.len() as u32).to_le_bytes());
    assert_eq!(&bytes[8..12], &4096u32.to_le_bytes());
    assert_eq!(&bytes[16..20], &[0x04, 0x03, 0x02, 0x01]);
    assert_eq!(&bytes[24..28], &[0xE0, 0x02, 0x00, 0x00]);
    assert_eq!(&bytes[72..78], &[0; 6]);
    assert_eq!(&bytes[78..80], &(bytes.len() as u16).to_le_bytes());
    assert_eq!(&bytes[80..82], &[0, 0]);
}

#[test]
fn a_password_past_the_first_plane_survives() {
    let login = Login7::new(Login::new("räk", "𝄞\u{0}'"), "");
    assert_eq!(read_login7(&encode_login7(&login, 0)).expect("read"), login);
}
