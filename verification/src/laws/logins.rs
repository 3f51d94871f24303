//! The pre-login, the login and the batch, whoever wrote them.

use vstd::prelude::*;
use vstd::utf8::*;

use crate::batch;
use crate::error::Fault;
use crate::laws::numbers;
use crate::laws::numbers::breaks_off;
use crate::login;
use crate::login::{Login7View, LoginView};
use crate::prelogin;
use crate::prelogin::PreloginView;
use crate::text;
use crate::wire;

verus! {

// The pre-login.

/// What this crate says ahead of the login, and what a pre-login that leaves
/// an option out says of it: version 0.0.1, no encryption, the default
/// instance, no thread, MARS off.
pub proof fn lemma_what_is_said_by_default()
    ensures
        prelogin::default_prelogin() == (PreloginView {
            version: seq![0u8, 0u8, 0u8, 1u8, 0u8, 0u8],
            encryption: 2,
            instance: Seq::empty(),
            thread_id: 0,
            mars: false,
        }),
{
    assert(prelogin::default_prelogin().version =~= seq![0u8, 0u8, 0u8, 1u8, 0u8, 0u8]);
}

/// The table ends at its terminator, and nothing behind that is read; a table
/// that breaks off is a failure.
pub proof fn lemma_a_table_ends_at_its_terminator(
    body: Seq<u8>,
    rest: Seq<u8>,
    told: PreloginView,
    short: Seq<u8>,
)
    requires
        short.len() < 5,
        short.len() == 0 || short[0] != 0xFF,
    ensures
        prelogin::options_read(body, seq![0xFFu8] + rest, told) == Ok::<PreloginView, Fault>(told),
        prelogin::options_read(body, short, told) == Err::<PreloginView, Fault>(breaks_off()),
{
    reveal(prelogin::options_read);
}

/// One entry of the table: its option takes the bytes it points to, and the
/// rest of the table follows.
#[verifier::spinoff_prover]
proof fn lemma_one_entry(
    body: Seq<u8>,
    token: u8,
    place: Seq<u8>,
    rest: Seq<u8>,
    told: PreloginView,
)
    requires
        token != 0xFF,
        place.len() == 4,
    ensures
        ({
            let at = 256 * place[0] + place[1];
            let end = at + 256 * place[2] + place[3];
            prelogin::options_read(body, seq![token] + place + rest, told) == (if end
                > body.len() {
                Err::<PreloginView, Fault>(
                    Fault {
                        message: "a pre-login option that points past the message"@,
                        retryable: false,
                    },
                )
            } else {
                match prelogin::with_option(told, token, body.subrange(at, end)) {
                    Ok(next) => prelogin::options_read(body, rest, next),
                    Err(fault) => Err(fault),
                }
            })
        }),
{
    reveal(prelogin::options_read);
    let s = seq![token] + place + rest;
    assert(s.skip(1)[0] == place[0] && s.skip(1)[1] == place[1]);
    assert(s.skip(3)[0] == place[2] && s.skip(3)[1] == place[3]);
    assert(s.skip(5) =~= rest);
}

/// An option that points past the message is a failure, whichever it is.
pub proof fn lemma_an_option_points_past_the_message(
    body: Seq<u8>,
    token: u8,
    place: Seq<u8>,
    rest: Seq<u8>,
    told: PreloginView,
)
    requires
        token != 0xFF,
        place.len() == 4,
        256 * place[0] + place[1] + 256 * place[2] + place[3] > body.len(),
    ensures
        prelogin::options_read(body, seq![token] + place + rest, told) == Err::<
            PreloginView,
            Fault,
        >(
            Fault {
                message: "a pre-login option that points past the message"@,
                retryable: false,
            },
        ),
{
    lemma_one_entry(body, token, place, rest, told);
}

/// The bytes that `place` points to in `body`, the offset and then the
/// length, each the high byte first.
pub open spec fn pointed_to(body: Seq<u8>, place: Seq<u8>) -> Seq<u8> {
    body.subrange(
        256 * place[0] + place[1],
        256 * place[0] + place[1] + 256 * place[2] + place[3],
    )
}

/// An option that is in the message changes what it is about and nothing
/// else: the version as far as it goes, the encryption, which cannot be
/// empty, the thread where it has four bytes, and MARS; any other is read
/// past.
pub proof fn lemma_an_option_changes_what_it_is_about(
    body: Seq<u8>,
    place: Seq<u8>,
    rest: Seq<u8>,
    told: PreloginView,
    other: u8,
)
    requires
        place.len() == 4,
        256 * place[0] + place[1] + 256 * place[2] + place[3] <= body.len(),
        told.version.len() == 6,
        4 < other < 0xFF,
    ensures
        ({
            let bytes = pointed_to(body, place);
            let n = bytes.len();
            &&& prelogin::options_read(body, seq![0u8] + place + rest, told)
                == prelogin::options_read(
                body,
                rest,
                PreloginView {
                    version: if n < 6 {
                        bytes + told.version.skip(n as int)
                    } else {
                        bytes.take(6)
                    },
                    ..told
                },
            )
            &&& n > 0 ==> prelogin::options_read(body, seq![1u8] + place + rest, told)
                == prelogin::options_read(body, rest, PreloginView { encryption: bytes[0], ..told })
            &&& n == 0 ==> prelogin::options_read(body, seq![1u8] + place + rest, told) == Err::<
                PreloginView,
                Fault,
            >(Fault { message: "an empty encryption option"@, retryable: false })
            &&& n == 4 ==> prelogin::options_read(body, seq![3u8] + place + rest, told)
                == prelogin::options_read(
                body,
                rest,
                PreloginView {
                    thread_id: (bytes[0] + 0x100 * bytes[1] + 0x1_0000 * bytes[2] + 0x100_0000
                        * bytes[3]) as u32,
                    ..told
                },
            )
            &&& n != 4 ==> prelogin::options_read(body, seq![3u8] + place + rest, told)
                == prelogin::options_read(body, rest, told)
            &&& prelogin::options_read(body, seq![4u8] + place + rest, told)
                == prelogin::options_read(
                body,
                rest,
                PreloginView { mars: n > 0 && bytes[0] != 0, ..told },
            )
            &&& prelogin::options_read(body, seq![other] + place + rest, told)
                == prelogin::options_read(body, rest, told)
        }),
{
    lemma_one_entry(body, 0, place, rest, told);
    lemma_one_entry(body, 1, place, rest, told);
    lemma_one_entry(body, 3, place, rest, told);
    lemma_one_entry(body, 4, place, rest, told);
    lemma_one_entry(body, other, place, rest, told);
    let bytes = pointed_to(body, place);
    let n = bytes.len();
    let version = prelogin::with_option(told, 0, bytes)->Ok_0.version;
    if n < 6 {
        assert(version =~= bytes + told.version.skip(n as int));
    } else {
        assert(version =~= bytes.take(6));
    }
}

/// The instance is the text ahead of its NUL, whatever stands behind that,
/// and all there is where there is none.
pub proof fn lemma_the_instance_ends_at_its_nul(
    body: Seq<u8>,
    place: Seq<u8>,
    rest: Seq<u8>,
    told: PreloginView,
    name: Seq<char>,
    more: Seq<u8>,
)
    requires
        place.len() == 4,
        256 * place[0] + place[1] + 256 * place[2] + place[3] <= body.len(),
        !name.contains('\0'),
        pointed_to(body, place) == encode_utf8(name) || pointed_to(body, place) == encode_utf8(name)
            + seq![0u8] + more,
    ensures
        prelogin::options_read(body, seq![2u8] + place + rest, told) == prelogin::options_read(
            body,
            rest,
            PreloginView { instance: name, ..told },
        ),
{
    lemma_one_entry(body, 2, place, rest, told);
    text::lemma_utf8_holds_no_zero(name);
    lemma_up_to_the_nul(encode_utf8(name), more);
    encode_utf8_valid_utf8(name);
    encode_utf8_decode_utf8(name);
}

/// Bytes without a zero are all there is up to one.
proof fn lemma_up_to_the_nul(name: Seq<u8>, more: Seq<u8>)
    requires
        forall|i: int| 0 <= i < name.len() ==> #[trigger] name[i] != 0,
    ensures
        prelogin::before_nul(name) == name,
        prelogin::before_nul(name + seq![0u8] + more) == name,
    decreases name.len(),
{
    let s = name + seq![0u8] + more;
    if name.len() > 0 {
        assert(name[0] != 0);
        lemma_up_to_the_nul(name.skip(1), more);
        assert(s.skip(1) =~= name.skip(1) + seq![0u8] + more);
        assert(seq![name[0]] + name.skip(1) =~= name);
    } else {
        assert(name =~= Seq::empty());
    }
}

/// A pre-login is written as its table of five options and their bytes in the
/// same order, each entry pointing to where its bytes stand.
pub proof fn lemma_a_prelogin_is_written(said: PreloginView)
    requires
        said.version.len() == 6,
        encode_utf8(said.instance).len() + 38 <= 0xFFFF,
    ensures
        ({
            let n = encode_utf8(said.instance).len() + 1;
            prelogin::prelogin_bytes(said) == seq![0u8, 0u8, 26u8, 0u8, 6u8] + seq![
                1u8,
                0u8,
                32u8,
                0u8,
                1u8,
            ] + seq![2u8, 0u8, 33u8, (n / 256) as u8, (n % 256) as u8] + seq![
                3u8,
                ((33 + n) / 256) as u8,
                ((33 + n) % 256) as u8,
                0u8,
                4u8,
            ] + seq![4u8, ((37 + n) / 256) as u8, ((37 + n) % 256) as u8, 0u8, 1u8] + seq![0xFFu8]
                + said.version + seq![said.encryption] + (encode_utf8(said.instance) + seq![0u8])
                + wire::le32(said.thread_id) + seq![
                if said.mars {
                    1u8
                } else {
                    0u8
                },
            ]
        }),
{
    let n = encode_utf8(said.instance).len() + 1;
    assert(prelogin::instance_bytes(said.instance) =~= encode_utf8(said.instance) + seq![0u8]);
    assert(prelogin::option_entry(0, 26, 6) =~= seq![0u8, 0u8, 26u8, 0u8, 6u8]);
    assert(prelogin::option_entry(1, 32, 1) =~= seq![1u8, 0u8, 32u8, 0u8, 1u8]);
    assert(prelogin::option_entry(2, 33, n) =~= seq![
        2u8,
        0u8,
        33u8,
        (n / 256) as u8,
        (n % 256) as u8,
    ]);
    assert(prelogin::option_entry(3, 33 + n, 4) =~= seq![
        3u8,
        ((33 + n) / 256) as u8,
        ((33 + n) % 256) as u8,
        0u8,
        4u8,
    ]);
    assert(prelogin::option_entry(4, 37 + n, 1) =~= seq![
        4u8,
        ((37 + n) / 256) as u8,
        ((37 + n) % 256) as u8,
        0u8,
        1u8,
    ]);
}

// The login.

/// A login says it is Xmip in whatever it does not say of who logs in.
pub proof fn lemma_a_login_is_xmips(login: LoginView, database: Seq<char>)
    ensures
        login::login_as_xmip(login, database) == (Login7View {
            login,
            database,
            hostname: "xmip"@,
            app_name: "xmip"@,
            server_name: Seq::empty(),
            library: "xmip-core-transport-mssql"@,
            language: Seq::empty(),
            packet_size: 4096,
        }),
{
}

/// A password is obscured byte by byte: the halves of each change places, and
/// then it is XORed with 0xA5; and it is revealed by undoing that.
pub proof fn lemma_a_password_is_obscured(high: u8, low: u8, rest: Seq<u8>)
    requires
        high < 16,
        low < 16,
    ensures
        login::obscured(Seq::empty()) == Seq::<u8>::empty(),
        login::obscured(seq![(16 * high + low) as u8] + rest) == seq![
            ((16 * low + high) as u8) ^ 0xA5u8,
        ] + login::obscured(rest),
        login::revealed(Seq::empty()) == Seq::<u8>::empty(),
        login::revealed(seq![((16 * low + high) as u8) ^ 0xA5u8] + rest) == seq![
            (16 * high + low) as u8,
        ] + login::revealed(rest),
{
    let byte = (16 * high + low) as u8;
    let swapped = (16 * low + high) as u8;
    assert(byte % 16 == low && byte / 16 == high);
    assert(swapped % 16 == high && swapped / 16 == low);
    assert(login::obscured(Seq::empty()) =~= Seq::<u8>::empty());
    assert(login::revealed(Seq::empty()) =~= Seq::<u8>::empty());
    assert(login::obscured(seq![byte] + rest) =~= seq![swapped ^ 0xA5u8] + login::obscured(rest));
    assert((swapped ^ 0xA5u8) ^ 0xA5u8 == swapped) by (bit_vector);
    assert(login::revealed(seq![swapped ^ 0xA5u8] + rest) =~= seq![byte] + login::revealed(rest));
}

/// Where the `i`th entry of the table at `at` points to.
pub open spec fn field_at(body: Seq<u8>, at: int, i: int) -> (int, int) {
    (
        body[at + 4 * i] + 256 * body[at + 4 * i + 1],
        body[at + 4 * i] + 256 * body[at + 4 * i + 1] + 2 * (body[at + 4 * i + 2] + 256 * body[at
            + 4 * i + 3]),
    )
}

/// The bytes that the `i`th entry of a login's table points to.
pub open spec fn login_field(body: Seq<u8>, i: int) -> Seq<u8> {
    body.subrange(field_at(body, 36, i).0, field_at(body, 36, i).1)
}

/// Fields are read from where the table points, each on its own.
proof fn lemma_fields_from_the_table(body: Seq<u8>, at: int, count: nat)
    requires
        0 <= at,
        at + 4 * count <= body.len(),
        forall|i: int| 0 <= i < count ==> (#[trigger] field_at(body, at, i)).1 <= body.len(),
    ensures
        login::fields_read(body, body.skip(at), count) == Ok::<Seq<Seq<u8>>, Fault>(
            Seq::new(
                count,
                |i: int| body.subrange(field_at(body, at, i).0, field_at(body, at, i).1),
            ),
        ),
    decreases count,
{
    let all = Seq::new(
        count,
        |i: int| body.subrange(field_at(body, at, i).0, field_at(body, at, i).1),
    );
    if count == 0 {
        assert(all =~= Seq::empty());
    } else {
        let s = body.skip(at);
        let less = (count - 1) as nat;
        assert forall|i: int| 0 <= i < less implies (#[trigger] field_at(body, at + 4, i)).1
            <= body.len() by {
            assert(field_at(body, at + 4, i) == field_at(body, at, i + 1));
        }
        lemma_fields_from_the_table(body, at + 4, less);
        assert(s.skip(4) =~= body.skip(at + 4));
        assert(field_at(body, at, 0).1 <= body.len());
        assert(wire::le16_value(s) == field_at(body, at, 0).0);
        assert(s.skip(2)[0] == body[at + 2] && s.skip(2)[1] == body[at + 3]);
        let others = Seq::new(
            less,
            |i: int| body.subrange(field_at(body, at + 4, i).0, field_at(body, at + 4, i).1),
        );
        assert forall|i: int| 0 <= i < less implies others[i] == all[i + 1] by {
            assert(field_at(body, at + 4, i) == field_at(body, at, i + 1));
        }
        assert(all =~= seq![body.subrange(field_at(body, at, 0).0, field_at(body, at, 0).1)]
            + others);
    }
}

/// A login of TDS 7.2 to 7.4 says what its table points to, wherever that is
/// in the message and whatever else the message says: the nine fields in the
/// table's order, the sixth unused, the password revealed.
pub proof fn lemma_a_login_is_read(body: Seq<u8>)
    requires
        body.len() >= 72,
        0x72 <= body[7] <= 0x74,
        forall|i: int| 0 <= i < 9 ==> (#[trigger] field_at(body, 36, i)).1 <= body.len(),
    ensures
        login::login7_read(body) == Ok::<Login7View, Fault>(
            Login7View {
                login: LoginView {
                    user: wire::ucs2_text(login_field(body, 1)),
                    password: wire::ucs2_text(login::revealed(login_field(body, 2))),
                },
                database: wire::ucs2_text(login_field(body, 8)),
                hostname: wire::ucs2_text(login_field(body, 0)),
                app_name: wire::ucs2_text(login_field(body, 3)),
                server_name: wire::ucs2_text(login_field(body, 4)),
                library: wire::ucs2_text(login_field(body, 6)),
                language: wire::ucs2_text(login_field(body, 7)),
                packet_size: (body[8] + 0x100 * body[9] + 0x1_0000 * body[10] + 0x100_0000
                    * body[11]) as u32,
            },
        ),
{
    lemma_fields_from_the_table(body, 36, 9);
    lemma_the_version_is_the_eighth_byte(body);
    let fields = Seq::new(
        9,
        |i: int| body.subrange(field_at(body, 36, i).0, field_at(body, 36, i).1),
    );
    assert(login::fields_read(body, body.skip(36), 9) == Ok::<Seq<Seq<u8>>, Fault>(fields));
    assert(body.skip(8)[0] == body[8] && body.skip(8)[1] == body[9] && body.skip(8)[2] == body[10]
        && body.skip(8)[3] == body[11]);
}

/// The highest byte of the version is the eighth of the message.
proof fn lemma_the_version_is_the_eighth_byte(body: Seq<u8>)
    requires
        body.len() >= 8,
    ensures
        wire::le32_value(body.skip(4)) / 0x100_0000 == body[7],
        wire::le32_value(body.skip(4)) == body[4] + 0x100 * body[5] + 0x1_0000 * body[6]
            + 0x100_0000 * body[7],
{
    assert(body.skip(4)[0] == body[4] && body.skip(4)[1] == body[5] && body.skip(4)[2] == body[6]
        && body.skip(4)[3] == body[7]);
    let n = body[4] + 0x100 * body[5] + 0x1_0000 * body[6] + 0x100_0000 * body[7];
    assert(n / 0x100_0000 == body[7]);
}

/// The first field that points past the message, or that the table breaks
/// off at, is why a login is not read.
proof fn lemma_a_field_is_not_there(body: Seq<u8>, at: int, count: nat, i: int)
    requires
        0 <= at <= body.len(),
        0 <= i < count,
        at + 4 * i <= body.len(),
        forall|j: int| 0 <= j < i ==> (#[trigger] field_at(body, at, j)).1 <= body.len(),
        at + 4 * i + 4 <= body.len() ==> field_at(body, at, i).1 > body.len(),
    ensures
        login::fields_read(body, body.skip(at), count) == Err::<Seq<Seq<u8>>, Fault>(
            if at + 4 * i + 4 <= body.len() {
                Fault { message: "a login field that points past the message"@, retryable: false }
            } else {
                breaks_off()
            },
        ),
    decreases i,
{
    let s = body.skip(at);
    if s.len() >= 4 {
        assert(wire::le16_value(s) == field_at(body, at, 0).0);
        assert(s.skip(2)[0] == body[at + 2] && s.skip(2)[1] == body[at + 3]);
    }
    if i > 0 {
        assert(field_at(body, at, 0).1 <= body.len());
        assert forall|j: int| 0 <= j < i - 1 implies (#[trigger] field_at(body, at + 4, j)).1
            <= body.len() by {
            assert(field_at(body, at + 4, j) == field_at(body, at, j + 1));
        }
        assert(field_at(body, at + 4, i - 1) == field_at(body, at, i));
        lemma_a_field_is_not_there(body, at + 4, (count - 1) as nat, i - 1);
        assert(s.skip(4) =~= body.skip(at + 4));
    }
}

/// A login is not read where it is not of TDS 7.2 to 7.4, which the failure
/// names, where it breaks off, and where a field points past the message.
pub proof fn lemma_a_login_is_not_read(body: Seq<u8>, i: int)
    ensures
        body.len() < 8 ==> login::login7_read(body) == Err::<Login7View, Fault>(breaks_off()),
        body.len() >= 8 && !(0x72 <= body[7] <= 0x74) ==> login::login7_read(body) == Err::<
            Login7View,
            Fault,
        >(
            Fault {
                message: "TDS "@ + seq![
                    '0',
                    'x',
                    "0123456789abcdef"@[body[7] as int / 16],
                    "0123456789abcdef"@[body[7] as int % 16],
                    "0123456789abcdef"@[body[6] as int / 16],
                    "0123456789abcdef"@[body[6] as int % 16],
                    "0123456789abcdef"@[body[5] as int / 16],
                    "0123456789abcdef"@[body[5] as int % 16],
                    "0123456789abcdef"@[body[4] as int / 16],
                    "0123456789abcdef"@[body[4] as int % 16],
                ] + " is not 7.2 to 7.4"@,
                retryable: false,
            },
        ),
        8 <= body.len() < 36 && 0x72 <= body[7] <= 0x74 ==> login::login7_read(body) == Err::<
            Login7View,
            Fault,
        >(breaks_off()),
        body.len() >= 36 && 0x72 <= body[7] <= 0x74 && 0 <= i < 9 && 36 + 4 * i <= body.len() && (
        forall|j: int| 0 <= j < i ==> (#[trigger] field_at(body, 36, j)).1 <= body.len()) && (36 + 4
            * i + 4 <= body.len() ==> field_at(body, 36, i).1 > body.len()) ==> login::login7_read(
            body,
        ) == Err::<Login7View, Fault>(
            if 36 + 4 * i + 4 <= body.len() {
                Fault { message: "a login field that points past the message"@, retryable: false }
            } else {
                breaks_off()
            },
        ),
{
    if body.len() >= 8 {
        lemma_the_version_is_the_eighth_byte(body);
        numbers::lemma_a_u32_is_named(body[7], body[6], body[5], body[4]);
        let n = (16777216 * body[7] + 65536 * body[6] + 256 * body[5] + body[4]) as u32;
        assert(wire::le32_value(body.skip(4)) == n);
    }
    if body.len() >= 36 && 0 <= i < 9 && 36 + 4 * i <= body.len() && (forall|j: int|
        0 <= j < i ==> (#[trigger] field_at(body, 36, j)).1 <= body.len()) && (36 + 4 * i + 4
        <= body.len() ==> field_at(body, 36, i).1 > body.len()) {
        lemma_a_field_is_not_there(body, 36, 9, i);
    }
}

/// A login begins with its length, as far as thirty-two bits can say it, TDS
/// 7.4, the packet size asked for, the process and the flags.
pub proof fn lemma_a_login_begins(login: Login7View, process_id: u32)
    ensures
        ({
            let body = login::login7_bytes(login, process_id);
            let length = if body.len() <= 0xFFFF_FFFF {
                body.len()
            } else {
                0xFFFF_FFFF
            };
            body.take(36) == wire::le32(length as u32) + seq![0x04u8, 0u8, 0u8, 0x74u8]
                + wire::le32(login.packet_size) + seq![0u8, 0u8, 0u8, 0u8] + wire::le32(process_id)
                + seq![0u8, 0u8, 0u8, 0u8] + seq![0xE0u8, 2u8, 0u8, 0u8] + seq![
                0u8,
                0u8,
                0u8,
                0u8,
                0u8,
                0u8,
                0u8,
                0u8,
            ]
        }),
{
    let body = login::login7_bytes(login, process_id);
    let fields = login::login_fields(login);
    let tail = login::field_tail(fields);
    lemma_a_table_has_four_bytes_a_field(fields, 94);
    assert(fields.len() == 9);
    let fixed = login::login_fixed(94 + tail.len(), login.packet_size, process_id);
    assert(fixed.len() == 36);
    assert(body.len() == 94 + tail.len());
    assert(body.take(36) =~= fixed);
    assert(wire::le32(0x7400_0004) =~= seq![0x04u8, 0u8, 0u8, 0x74u8]);
    assert(wire::le32(0) =~= seq![0u8, 0u8, 0u8, 0u8]);
    assert(wire::le_i32(0) =~= seq![0u8, 0u8, 0u8, 0u8]);
    let length = if body.len() <= 0xFFFF_FFFF {
        body.len()
    } else {
        0xFFFF_FFFF
    };
    let start = wire::le32(length as u32) + wire::le32(0x7400_0004) + wire::le32(
        login.packet_size,
    ) + wire::le32(0) + wire::le32(process_id) + wire::le32(0) + seq![0xE0u8, 2u8, 0u8, 0u8];
    assert(start + wire::le_i32(0) + wire::le32(0) =~= start + seq![
        0u8,
        0u8,
        0u8,
        0u8,
        0u8,
        0u8,
        0u8,
        0u8,
    ]);
}

/// A table has four bytes for every field.
proof fn lemma_a_table_has_four_bytes_a_field(fields: Seq<Seq<u8>>, at: nat)
    ensures
        login::field_table(fields, at).len() == 4 * fields.len(),
    decreases fields.len(),
{
    if fields.len() > 0 {
        lemma_a_table_has_four_bytes_a_field(fields.skip(1), at + fields[0].len());
    }
}

/// A login's fields stand one behind the other at its end, the password
/// obscured, and nothing behind them; between the table and the fields
/// nothing is said.
pub proof fn lemma_a_login_ends(login: Login7View, process_id: u32)
    ensures
        ({
            let body = login::login7_bytes(login, process_id);
            let end = if body.len() <= 0xFFFF {
                body.len()
            } else {
                0xFFFF
            };
            let none = seq![(end % 256) as u8, (end / 256) as u8, 0u8, 0u8];
            &&& body.len() >= 94
            &&& body.skip(94) == wire::ucs2_bytes(login.hostname) + (wire::ucs2_bytes(
                login.login.user,
            ) + (login::obscured(wire::ucs2_bytes(login.login.password)) + (wire::ucs2_bytes(
                login.app_name,
            ) + (wire::ucs2_bytes(login.server_name) + (wire::ucs2_bytes(login.library) + (
            wire::ucs2_bytes(login.language) + wire::ucs2_bytes(login.database)))))))
            &&& body.subrange(72, 94) == seq![0u8, 0u8, 0u8, 0u8, 0u8, 0u8] + none + none + none
                + seq![0u8, 0u8, 0u8, 0u8]
        }),
{
    let body = login::login7_bytes(login, process_id);
    let fields = login::login_fields(login);
    let tail = login::field_tail(fields);
    let fixed = login::login_fixed(94 + tail.len(), login.packet_size, process_id);
    let table = login::field_table(fields, 94);
    let closing = login::login_closing(94 + tail.len());
    lemma_a_table_has_four_bytes_a_field(fields, 94);
    assert(fields.len() == 9);
    assert(fixed.len() == 36 && closing.len() == 22);
    lemma_parts_in_their_places(fixed, table, closing, tail);
    lemma_nine_fields(fields);
    let end = if body.len() <= 0xFFFF {
        body.len()
    } else {
        0xFFFF
    };
    let none = seq![(end % 256) as u8, (end / 256) as u8, 0u8, 0u8];
    assert(wire::le16(wire::saturated(94 + tail.len())) + wire::le16(0) =~= none);
    assert(wire::le32(0) =~= seq![0u8, 0u8, 0u8, 0u8]);
    assert(seq![0u8, 0, 0, 0, 0, 0] =~= seq![0u8, 0u8, 0u8, 0u8, 0u8, 0u8]);
}

/// The parts of a login stand behind each other.
proof fn lemma_parts_in_their_places(
    fixed: Seq<u8>,
    table: Seq<u8>,
    closing: Seq<u8>,
    tail: Seq<u8>,
)
    requires
        fixed.len() == 36,
        table.len() == 36,
        closing.len() == 22,
    ensures
        ({
            let body = fixed + table + closing + tail;
            &&& body.len() == 94 + tail.len()
            &&& body.subrange(36, 72) == table
            &&& body.subrange(72, 94) == closing
            &&& body.skip(94) == tail
        }),
{
    let body = fixed + table + closing + tail;
    assert(body.subrange(36, 72) =~= table);
    assert(body.subrange(72, 94) =~= closing);
    assert(body.skip(94) =~= tail);
}

/// Nine fields, the sixth empty, are eight behind each other.
proof fn lemma_nine_fields(f: Seq<Seq<u8>>)
    requires
        f.len() == 9,
        f[5].len() == 0,
    ensures
        login::field_tail(f) == f[0] + (f[1] + (f[2] + (f[3] + (f[4] + (f[6] + (f[7] + f[8])))))),
{
    reveal_with_fuel(login::field_tail, 10);
    let f8 = f.skip(1).skip(1).skip(1).skip(1).skip(1).skip(1).skip(1).skip(1);
    assert(f8 =~= seq![f[8]]);
    assert(f8.skip(1) =~= Seq::empty());
    assert(f[8] + Seq::empty() =~= f[8]);
    let behind = f[6] + (f[7] + f[8]);
    assert(f[5] + behind =~= behind);
}

/// An entry of a login's table says where its field begins, and how many
/// characters it has, as far as sixteen bits can say it.
pub proof fn lemma_a_login_is_its_table(fields: Seq<Seq<u8>>, at: nat, field: Seq<u8>)
    ensures
        login::field_table(Seq::empty(), at) == Seq::<u8>::empty(),
        ({
            let begins = if at < 65536 {
                at
            } else {
                65535
            };
            let chars = if field.len() / 2 < 65536 {
                field.len() / 2
            } else {
                65535
            };
            login::field_table(seq![field] + fields, at) == seq![
                (begins % 256) as u8,
                (begins / 256) as u8,
                (chars % 256) as u8,
                (chars / 256) as u8,
            ] + login::field_table(fields, at + field.len())
        }),
{
    let all = seq![field] + fields;
    let begins = if at < 65536 {
        at
    } else {
        65535
    };
    let chars = if field.len() / 2 < 65536 {
        field.len() / 2
    } else {
        65535
    };
    assert(all.skip(1) =~= fields);
    assert(wire::le16(wire::saturated(at)) + wire::le16(wire::saturated(field.len() / 2)) =~= seq![
        (begins % 256) as u8,
        (begins / 256) as u8,
        (chars % 256) as u8,
        (chars / 256) as u8,
    ]);
}

/// The table of a login is that of its nine fields, the sixth empty, from the
/// ninety-fifth byte on.
pub proof fn lemma_a_login_has_nine_fields(login: Login7View, process_id: u32)
    ensures
        login::login7_bytes(login, process_id).subrange(36, 72) == login::field_table(
            seq![
                wire::ucs2_bytes(login.hostname),
                wire::ucs2_bytes(login.login.user),
                login::obscured(wire::ucs2_bytes(login.login.password)),
                wire::ucs2_bytes(login.app_name),
                wire::ucs2_bytes(login.server_name),
                Seq::empty(),
                wire::ucs2_bytes(login.library),
                wire::ucs2_bytes(login.language),
                wire::ucs2_bytes(login.database),
            ],
            94,
        ),
{
    let fields = login::login_fields(login);
    let tail = login::field_tail(fields);
    lemma_a_table_has_four_bytes_a_field(fields, 94);
    assert(fields.len() == 9);
    lemma_parts_in_their_places(
        login::login_fixed(94 + tail.len(), login.packet_size, process_id),
        login::field_table(fields, 94),
        login::login_closing(94 + tail.len()),
        tail,
    );
}

/// An entry of a pre-login's table says where its option begins and how long
/// it is, the high byte first, as far as sixteen bits can say it.
pub proof fn lemma_an_option_is_pointed_to(token: u8, offset: nat, length: nat)
    ensures
        ({
            let at = if offset < 65536 {
                offset
            } else {
                65535
            };
            let n = if length < 65536 {
                length
            } else {
                65535
            };
            prelogin::option_entry(token, offset, length) == seq![
                token,
                (at / 256) as u8,
                (at % 256) as u8,
                (n / 256) as u8,
                (n % 256) as u8,
            ]
        }),
{
    let at = if offset < 65536 {
        offset
    } else {
        65535
    };
    let n = if length < 65536 {
        length
    } else {
        65535
    };
    assert(prelogin::option_entry(token, offset, length) =~= seq![
        token,
        (at / 256) as u8,
        (at % 256) as u8,
        (n / 256) as u8,
        (n % 256) as u8,
    ]);
}

/// A pre-login of any instance is its table and its options' bytes, an entry
/// of the table for each.
pub proof fn lemma_a_prelogin_is_its_table(said: PreloginView)
    ensures
        ({
            let n = encode_utf8(said.instance).len() + 1;
            prelogin::prelogin_bytes(said) == prelogin::option_entry(0, 26, 6)
                + prelogin::option_entry(1, 32, 1) + prelogin::option_entry(2, 33, n)
                + prelogin::option_entry(3, 33 + n, 4) + prelogin::option_entry(4, 37 + n, 1)
                + seq![0xFFu8] + said.version + seq![said.encryption] + (encode_utf8(said.instance)
                + seq![0u8]) + wire::le32(said.thread_id) + seq![
                if said.mars {
                    1u8
                } else {
                    0u8
                },
            ]
        }),
{
    assert(prelogin::instance_bytes(said.instance) =~= encode_utf8(said.instance) + seq![0u8]);
}

/// The instance is what stands ahead of a NUL, read as UTF-8 where it is that
/// and patched where it is not.
pub proof fn lemma_any_instance_is_read(
    body: Seq<u8>,
    place: Seq<u8>,
    rest: Seq<u8>,
    told: PreloginView,
    name: Seq<u8>,
    more: Seq<u8>,
)
    requires
        place.len() == 4,
        256 * place[0] + place[1] + 256 * place[2] + place[3] <= body.len(),
        forall|i: int| 0 <= i < name.len() ==> #[trigger] name[i] != 0,
        pointed_to(body, place) == name || pointed_to(body, place) == name + seq![0u8] + more,
    ensures
        prelogin::options_read(body, seq![2u8] + place + rest, told) == prelogin::options_read(
            body,
            rest,
            PreloginView {
                instance: if valid_utf8(name) {
                    decode_utf8(name)
                } else {
                    text::patched_utf8(name)
                },
                ..told
            },
        ),
{
    lemma_one_entry(body, 2, place, rest, told);
    lemma_up_to_the_nul(name, more);
}

// The batch.

/// A batch is written behind one header: no transaction, and one request.
pub proof fn lemma_a_batch_is_written(sql: Seq<char>)
    ensures
        batch::batch_bytes(sql) == seq![22u8, 0u8, 0u8, 0u8] + seq![18u8, 0u8, 0u8, 0u8] + seq![
            2u8,
            0u8,
        ] + seq![0u8, 0u8, 0u8, 0u8, 0u8, 0u8, 0u8, 0u8] + seq![1u8, 0u8, 0u8, 0u8]
            + wire::ucs2_bytes(sql),
{
    assert(wire::le32(22) =~= seq![22u8, 0u8, 0u8, 0u8]);
    assert(wire::le32(18) =~= seq![18u8, 0u8, 0u8, 0u8]);
    assert(wire::le16(2) =~= seq![2u8, 0u8]);
    assert(wire::le64(0) =~= seq![0u8, 0u8, 0u8, 0u8, 0u8, 0u8, 0u8, 0u8]);
    assert(wire::le32(1) =~= seq![1u8, 0u8, 0u8, 0u8]);
}

/// The SQL of a batch is what stands behind its headers, whatever these are
/// and however many: as long as the length that begins them says, itself
/// included.
pub proof fn lemma_any_headers_are_read_past(length: Seq<u8>, headers: Seq<u8>, sql: Seq<u8>)
    requires
        length.len() == 4,
        length[0] + 0x100 * length[1] + 0x1_0000 * length[2] + 0x100_0000 * length[3] == 4
            + headers.len(),
    ensures
        batch::batch_sql(length + headers + sql) == Ok::<Seq<char>, Fault>(wire::ucs2_text(sql)),
{
    let body = length + headers + sql;
    let rest = headers + sql;
    assert(body =~= seq![length[0], length[1], length[2], length[3]] + rest);
    numbers::lemma_four_bytes_are_read(
        length[0],
        length[1],
        length[2],
        length[3],
        rest,
        Seq::empty(),
    );
    assert(rest.skip(headers.len() as int) =~= sql);
}

/// A batch whose headers are shorter than their own length, or longer than
/// the batch, or that breaks off in it, has no SQL.
pub proof fn lemma_headers_that_are_not_there(length: Seq<u8>, rest: Seq<u8>, short: Seq<u8>)
    requires
        length.len() == 4,
        short.len() < 4,
    ensures
        ({
            let n = length[0] + 0x100 * length[1] + 0x1_0000 * length[2] + 0x100_0000 * length[3];
            &&& n < 4 ==> batch::batch_sql(length + rest) == Err::<Seq<char>, Fault>(
                Fault { message: "a headers length under four"@, retryable: false },
            )
            &&& n > 4 + rest.len() ==> batch::batch_sql(length + rest) == Err::<Seq<char>, Fault>(
                Fault { message: "headers that run past the batch"@, retryable: false },
            )
        }),
        batch::batch_sql(short) == Err::<Seq<char>, Fault>(breaks_off()),
{
    assert(length + rest =~= seq![length[0], length[1], length[2], length[3]] + rest);
    numbers::lemma_four_bytes_are_read(
        length[0],
        length[1],
        length[2],
        length[3],
        rest,
        Seq::empty(),
    );
}

} // verus!
