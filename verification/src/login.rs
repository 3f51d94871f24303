//! The login, LOGIN7: one message from the client, the only one that
//! names anyone. A fixed part of versions, sizes and flags, then a table
//! of offsets and character counts into a tail of UCS-2 fields — host,
//! user, password, application, server, library, language, database.
//! The password is obscured, not encrypted: each byte's nibbles swapped
//! and the result exclusive-ORed with 0xA5, which keeps it out of a casual trace
//! and nothing more; the wire is TLS's to protect, per ADR-0033. SQL
//! Server authentication only — no SSPI, no federated token — because a
//! login on a service account is what an integration runs as. Read here
//! as well as written, because the far-end [`crate::Session`] reads it.

use vstd::prelude::*;
use vstd::slice::slice_subrange;

use crate::error;
use crate::error::{protocol_error, Fault, TransportError};
use crate::number;
use crate::wire;
use crate::wire::{Cursor, DEFAULT_PACKET_SIZE};

verus! {

/// TDS 7.4, as the login writes it.
pub const TDS_7_4: u32 = 0x7400_0004;

/// The fixed part and the offset table, before the first field.
const FIXED_LENGTH: usize = 94;

/// The fields in the order the offset table names them.
const FIELDS: usize = 9;

/// Who logs in.
#[derive(Debug, PartialEq, Eq)]
pub struct Login {
    pub user: String,
    pub password: String,
}

/// What a [`Login`] says.
#[verifier::ext_equal]
pub struct LoginView {
    pub user: Seq<char>,
    pub password: Seq<char>,
}

impl View for Login {
    type V = LoginView;

    open spec fn view(&self) -> LoginView {
        LoginView { user: self.user@, password: self.password@ }
    }
}

impl Clone for Login {
    fn clone(&self) -> (copy: Self)
        ensures
            copy == *self,
    {
        Login { user: self.user.clone(), password: self.password.clone() }
    }
}

impl Login {
    /// `user` with `password`.
    #[must_use]
    pub fn new(user: &str, password: &str) -> (login: Self)
        ensures
            login@ == (LoginView { user: user@, password: password@ }),
    {
        Login { user: user.to_owned(), password: password.to_owned() }
    }

    /// True of the same user with the same password.
    #[must_use]
    pub(crate) fn same_as(&self, other: &Login) -> (same: bool)
        ensures
            same == (self@ == other@),
    {
        let same: bool = self.user == other.user && self.password == other.password;
        assert(same ==> self@ =~= other@);
        same
    }
}

/// The whole login message.
#[derive(Debug, PartialEq, Eq)]
pub struct Login7 {
    pub login: Login,
    pub database: String,
    pub hostname: String,
    pub app_name: String,
    pub server_name: String,
    pub library: String,
    pub language: String,
    pub packet_size: u32,
}

/// What a [`Login7`] says.
#[verifier::ext_equal]
pub struct Login7View {
    pub login: LoginView,
    pub database: Seq<char>,
    pub hostname: Seq<char>,
    pub app_name: Seq<char>,
    pub server_name: Seq<char>,
    pub library: Seq<char>,
    pub language: Seq<char>,
    pub packet_size: u32,
}

impl View for Login7 {
    type V = Login7View;

    open spec fn view(&self) -> Login7View {
        Login7View {
            login: self.login@,
            database: self.database@,
            hostname: self.hostname@,
            app_name: self.app_name@,
            server_name: self.server_name@,
            library: self.library@,
            language: self.language@,
            packet_size: self.packet_size,
        }
    }
}

impl DeepView for Login7 {
    type V = Login7View;

    open spec fn deep_view(&self) -> Login7View {
        self@
    }
}

impl Clone for Login7 {
    fn clone(&self) -> (copy: Self)
        ensures
            copy == *self,
    {
        Login7 {
            login: self.login.clone(),
            database: self.database.clone(),
            hostname: self.hostname.clone(),
            app_name: self.app_name.clone(),
            server_name: self.server_name.clone(),
            library: self.library.clone(),
            language: self.language.clone(),
            packet_size: self.packet_size,
        }
    }
}

/// `login` on `database`, the rest saying it is Xmip.
pub open spec fn login_as_xmip(login: LoginView, database: Seq<char>) -> Login7View {
    Login7View {
        login,
        database,
        hostname: "xmip"@,
        app_name: "xmip"@,
        server_name: Seq::empty(),
        library: "xmip-core-transport-mssql"@,
        language: Seq::empty(),
        packet_size: DEFAULT_PACKET_SIZE as u32,
    }
}

impl Login7 {
    /// `login` on `database`, the rest saying it is Xmip.
    #[must_use]
    pub fn new(login: Login, database: &str) -> (login7: Self)
        ensures
            login7@ == login_as_xmip(login@, database@),
    {
        Login7 {
            login,
            database: database.to_owned(),
            hostname: "xmip".to_owned(),
            app_name: "xmip".to_owned(),
            server_name: String::new(),
            library: "xmip-core-transport-mssql".to_owned(),
            language: String::new(),
            packet_size: DEFAULT_PACKET_SIZE as u32,
        }
    }
}

/// `byte` with its nibbles swapped.
pub open spec fn nibbles_swapped(byte: u8) -> u8 {
    (16 * (byte % 16) + byte / 16) as u8
}

/// A password as the wire carries it: nibbles swapped, then XOR 0xA5.
pub open spec fn obscured(password: Seq<u8>) -> Seq<u8> {
    Seq::new(password.len(), |i: int| nibbles_swapped(password[i]) ^ 0xA5u8)
}

/// The password an obscured one was: XOR 0xA5, then nibbles swapped.
pub open spec fn revealed(obscured: Seq<u8>) -> Seq<u8> {
    Seq::new(obscured.len(), |i: int| nibbles_swapped(obscured[i] ^ 0xA5u8))
}

/// `password` as the wire carries it: nibbles swapped, then XOR 0xA5.
#[must_use]
pub fn obscure(password: &[u8]) -> (out: Vec<u8>)
    ensures
        out@ == obscured(password@),
{
    let mut out: Vec<u8> = Vec::new();
    let mut i: usize = 0;
    while i < password.len()
        invariant
            i <= password.len(),
            out@ == obscured(password@).take(i as int),
        decreases password.len() - i,
    {
        let byte: u8 = password[i];
        out.push((16 * (byte % 16) + byte / 16) ^ 0xA5);
        assert(out@ =~= obscured(password@).take(i + 1));
        i = i + 1;
    }
    assert(out@ =~= obscured(password@));
    out
}

/// The password an obscured one was.
#[must_use]
pub fn reveal_password(obscured: &[u8]) -> (out: Vec<u8>)
    ensures
        out@ == revealed(obscured@),
{
    let mut out: Vec<u8> = Vec::new();
    let mut i: usize = 0;
    while i < obscured.len()
        invariant
            i <= obscured.len(),
            out@ == revealed(obscured@).take(i as int),
        decreases obscured.len() - i,
    {
        let byte: u8 = obscured[i] ^ 0xA5;
        out.push(16 * (byte % 16) + byte / 16);
        assert(out@ =~= revealed(obscured@).take(i + 1));
        i = i + 1;
    }
    assert(out@ =~= revealed(obscured@));
    out
}

/// A password that was obscured is revealed as it was.
pub proof fn lemma_password_reads_back(password: Seq<u8>)
    ensures
        revealed(obscured(password)) == password,
{
    assert forall|i: int| 0 <= i < password.len() implies revealed(obscured(password))[i]
        == password[i] by {
        let swapped = nibbles_swapped(password[i]);
        assert((swapped ^ 0xA5u8) ^ 0xA5u8 == swapped) by (bit_vector);
    }
    assert(revealed(obscured(password)) =~= password);
}

/// The fields a login carries, in the order the offset table names them; the
/// sixth, the extension, is unused.
pub open spec fn login_fields(login: Login7View) -> Seq<Seq<u8>> {
    seq![
        wire::ucs2_bytes(login.hostname),
        wire::ucs2_bytes(login.login.user),
        obscured(wire::ucs2_bytes(login.login.password)),
        wire::ucs2_bytes(login.app_name),
        wire::ucs2_bytes(login.server_name),
        Seq::empty(),
        wire::ucs2_bytes(login.library),
        wire::ucs2_bytes(login.language),
        wire::ucs2_bytes(login.database),
    ]
}

/// The offset table of `fields` that stand one behind the other from `at`:
/// where each begins, and how many characters it has.
pub open spec fn field_table(fields: Seq<Seq<u8>>, at: nat) -> Seq<u8>
    decreases fields.len(),
{
    if fields.len() == 0 {
        Seq::empty()
    } else {
        wire::le16(wire::saturated(at)) + wire::le16(wire::saturated(fields[0].len() / 2))
            + field_table(fields.skip(1), at + fields[0].len())
    }
}

/// `fields` one behind the other.
pub open spec fn field_tail(fields: Seq<Seq<u8>>) -> Seq<u8>
    decreases fields.len(),
{
    if fields.len() == 0 {
        Seq::empty()
    } else {
        fields[0] + field_tail(fields.skip(1))
    }
}

/// What stands ahead of the offset table: the message's length, the version
/// spoken, the packet size asked for, no program version, the process, no
/// connection, the flags, no time zone, no LCID. The flags are fUseDB,
/// fDatabase and fSetLang; fODBC; no type flags; nothing more.
pub open spec fn login_fixed(length: nat, packet_size: u32, process_id: u32) -> Seq<u8> {
    wire::le32(
        if length <= u32::MAX {
            length as u32
        } else {
            u32::MAX
        },
    ) + wire::le32(TDS_7_4) + wire::le32(packet_size) + wire::le32(0) + wire::le32(process_id)
        + wire::le32(0) + seq![0xE0u8, 0x02, 0x00, 0x00] + wire::le_i32(0) + wire::le32(0)
}

/// What stands between the offset table's nine fields and the first field,
/// `end` being where the last field ends: no client id; no SSPI, no
/// attach-database file, no change of password; no long SSPI.
pub open spec fn login_closing(end: nat) -> Seq<u8> {
    let none = wire::le16(wire::saturated(end)) + wire::le16(0);
    seq![0u8, 0, 0, 0, 0, 0] + none + none + none + wire::le32(0)
}

/// `login` as the payload on the wire, from the process `process_id`.
pub open spec fn login7_bytes(login: Login7View, process_id: u32) -> Seq<u8> {
    let fields = login_fields(login);
    let tail = field_tail(fields);
    let length = 94 + tail.len();
    login_fixed(length, login.packet_size, process_id) + field_table(fields, 94) + login_closing(
        length,
    ) + tail
}

/// The first `n` of `fields` written, one more is: what that adds to the
/// table and to the tail.
proof fn lemma_next_field(fields: Seq<Seq<u8>>, n: int, at: nat)
    requires
        0 <= n < fields.len(),
    ensures
        field_tail(fields.take(n + 1)) == field_tail(fields.take(n)) + fields[n],
        field_table(fields.take(n + 1), at) == field_table(fields.take(n), at) + wire::le16(
            wire::saturated(at + field_tail(fields.take(n)).len()),
        ) + wire::le16(wire::saturated(fields[n].len() / 2)),
    decreases n,
{
    reveal_with_fuel(field_tail, 2);
    reveal_with_fuel(field_table, 2);
    let more = fields.take(n + 1);
    let some = fields.take(n);
    if n == 0 {
        assert(some =~= Seq::empty());
        assert(more.skip(1) =~= Seq::empty());
        assert(field_tail(more) =~= field_tail(some) + fields[0]);
        assert(field_table(more, at) =~= field_table(some, at) + wire::le16(wire::saturated(at))
            + wire::le16(wire::saturated(fields[0].len() / 2)));
    } else {
        lemma_next_field(fields.skip(1), n - 1, at + fields[0].len());
        assert(more.skip(1) =~= fields.skip(1).take(n));
        assert(some.skip(1) =~= fields.skip(1).take(n - 1));
        assert(field_tail(more) =~= field_tail(some) + fields[n]);
        assert(field_table(more, at) =~= field_table(some, at) + wire::le16(
            wire::saturated(at + field_tail(some).len()),
        ) + wire::le16(wire::saturated(fields[n].len() / 2)));
    }
}

/// Writes one field: its entry to the `table`, itself to the `tail`.
fn push_field(table: &mut Vec<u8>, tail: &mut Vec<u8>, field: &[u8])
    ensures
        final(tail)@ == old(tail)@ + field@,
        final(table)@ == old(table)@ + wire::le16(wire::saturated(94 + old(tail)@.len()))
            + wire::le16(wire::saturated(field@.len() / 2)),
{
    let offset: u16 = wire::saturated_sum(FIXED_LENGTH, tail.len());
    let chars: u16 = wire::saturated_sum(0, field.len() / 2);
    wire::push_u16(table, offset);
    wire::push_u16(table, chars);
    wire::push_bytes(tail, field);
}

/// `login` as the payload on the wire, from the process `process_id`.
#[must_use]
pub fn encode_login7(login: &Login7, process_id: u32) -> (out: Vec<u8>)
    ensures
        out@ == login7_bytes(login@, process_id),
{
    let password: Vec<u8> = obscure(wire::ucs2(login.login.password.as_str()).as_slice());
    let fields: [Vec<u8>; 9] = [
        wire::ucs2(login.hostname.as_str()),
        wire::ucs2(login.login.user.as_str()),
        password,
        wire::ucs2(login.app_name.as_str()),
        wire::ucs2(login.server_name.as_str()),
        Vec::new(),  // the extension, unused
        wire::ucs2(login.library.as_str()),
        wire::ucs2(login.language.as_str()),
        wire::ucs2(login.database.as_str()),
    ];
    let ghost model = login_fields(login@);
    assert(forall|i: int| 0 <= i < 9 ==> fields@[i]@ == #[trigger] model[i]);
    let mut table: Vec<u8> = Vec::new();
    let mut tail: Vec<u8> = Vec::new();
    let mut i: usize = 0;
    assert(model.take(0) =~= Seq::empty());
    while i < FIELDS
        invariant
            i <= FIELDS,
            model.len() == 9,
            forall|i: int| 0 <= i < 9 ==> fields@[i]@ == #[trigger] model[i],
            table@ == field_table(model.take(i as int), 94),
            tail@ == field_tail(model.take(i as int)),
        decreases FIELDS - i,
    {
        push_field(&mut table, &mut tail, fields[i].as_slice());
        proof {
            lemma_next_field(model, i as int, 94);
        }
        i = i + 1;
    }
    assert(model.take(9) =~= model);
    let mut out: Vec<u8> = Vec::new();
    wire::push_u32(&mut out, saturated_length(tail.len()));
    wire::push_u32(&mut out, TDS_7_4);
    wire::push_u32(&mut out, login.packet_size);
    wire::push_u32(&mut out, 0);  // client program version
    wire::push_u32(&mut out, process_id);
    wire::push_u32(&mut out, 0);  // connection id
    wire::push_bytes(&mut out, [0xE0u8, 0x02, 0x00, 0x00].as_slice());
    wire::push_i32(&mut out, 0);  // time zone
    wire::push_u32(&mut out, 0);  // LCID
    assert(out@ =~= login_fixed(94 + tail@.len(), login.packet_size, process_id));
    wire::push_bytes(&mut out, table.as_slice());
    push_closing(&mut out, wire::saturated_sum(FIXED_LENGTH, tail.len()));
    wire::push_bytes(&mut out, tail.as_slice());
    assert(out@ =~= login7_bytes(login@, process_id));
    out
}

/// The length of a message with a tail of `tail` bytes, or the most a u32
/// can say.
fn saturated_length(tail: usize) -> (length: u32)
    ensures
        length == (if 94 + tail <= u32::MAX {
            94 + tail
        } else {
            u32::MAX as int
        }),
{
    if tail > 0xFFFF_FFFF - FIXED_LENGTH {
        0xFFFF_FFFF
    } else {
        (FIXED_LENGTH + tail) as u32
    }
}

/// Appends what stands between the offset table's nine fields and the first
/// field, which is nothing at all from `end`.
fn push_closing(out: &mut Vec<u8>, end: u16)
    ensures
        final(out)@ == old(out)@ + (seq![0u8, 0, 0, 0, 0, 0] + (wire::le16(end) + wire::le16(0)) + (
        wire::le16(end) + wire::le16(0)) + (wire::le16(end) + wire::le16(0)) + wire::le32(0)),
{
    wire::push_bytes(out, [0u8, 0, 0, 0, 0, 0].as_slice());  // client id
    wire::push_u16(out, end);  // SSPI
    wire::push_u16(out, 0);
    wire::push_u16(out, end);  // the attach-database file
    wire::push_u16(out, 0);
    wire::push_u16(out, end);  // the change of password
    wire::push_u16(out, 0);
    wire::push_u32(out, 0);  // long SSPI
    assert(out@ =~= old(out)@ + (seq![0u8, 0, 0, 0, 0, 0] + (wire::le16(end) + wire::le16(0)) + (
    wire::le16(end) + wire::le16(0)) + (wire::le16(end) + wire::le16(0)) + wire::le32(0)));
}

/// The next `count` fields that the table `s` names in `body`, or why it
/// names none.
pub open spec fn fields_read(body: Seq<u8>, s: Seq<u8>, count: nat) -> Result<Seq<Seq<u8>>, Fault>
    decreases count,
{
    if count == 0 {
        Ok(Seq::empty())
    } else if s.len() < 4 {
        Err(wire::past_the_message())
    } else {
        let offset = wire::le16_value(s) as int;
        let chars = wire::le16_value(s.skip(2)) as int;
        if offset + 2 * chars > body.len() {
            Err(error::fault("a login field that points past the message"@))
        } else {
            match fields_read(body, s.skip(4), (count - 1) as nat) {
                Ok(others) => Ok(seq![body.subrange(offset, offset + 2 * chars)] + others),
                Err(fault) => Err(fault),
            }
        }
    }
}

/// The login that fields read from a message say, the password revealed.
pub open spec fn login_of(fields: Seq<Seq<u8>>, packet_size: u32) -> Login7View {
    Login7View {
        login: LoginView {
            user: wire::ucs2_text(fields[1]),
            password: wire::ucs2_text(revealed(fields[2])),
        },
        database: wire::ucs2_text(fields[8]),
        hostname: wire::ucs2_text(fields[0]),
        app_name: wire::ucs2_text(fields[3]),
        server_name: wire::ucs2_text(fields[4]),
        library: wire::ucs2_text(fields[6]),
        language: wire::ucs2_text(fields[7]),
        packet_size,
    }
}

/// The login a payload carries, the password revealed, or why it carries
/// none. The version is the second word, and its high byte is what counts;
/// the packet size is the third; the offset table begins at 36.
pub open spec fn login7_read(body: Seq<u8>) -> Result<Login7View, Fault> {
    let version = wire::le32_value(body.skip(4));
    if body.len() < 8 {
        Err(wire::past_the_message())
    } else if !(0x72 <= version / 0x100_0000 <= 0x74) {
        Err(error::fault("TDS "@ + number::hex_u32(version) + " is not 7.2 to 7.4"@))
    } else if body.len() < 36 {
        Err(wire::past_the_message())
    } else {
        match fields_read(body, body.skip(36), 9) {
            Ok(fields) => Ok(login_of(fields, wire::le32_value(body.skip(8)))),
            Err(fault) => Err(fault),
        }
    }
}

/// The bytes of the next field that the table names in `body`; an error
/// where the table breaks off or the field points past the message.
fn next_field<'a>(cursor: &mut Cursor<'_>, body: &'a [u8]) -> (field: Result<
    &'a [u8],
    TransportError,
>)
    ensures
        match fields_read(body@, old(cursor)@, 1) {
            Ok(fields) => {
                &&& field matches Ok(bytes)
                &&& bytes@ == fields[0]
                &&& final(cursor)@ == old(cursor)@.skip(4)
            },
            Err(fault) => field matches Err(error) && error@ == fault,
        },
{
    proof {
        reveal_with_fuel(fields_read, 2);
        if cursor@.len() >= 4 {
            assert(cursor@.skip(2).skip(2) =~= cursor@.skip(4));
        }
    }
    let offset: usize = cursor.u16()? as usize;
    let chars: usize = cursor.u16()? as usize;
    if offset + 2 * chars > body.len() {
        return Err(protocol_error("a login field that points past the message"));
    }
    Ok(slice_subrange(body, offset, offset + 2 * chars))
}

/// The fields as they were read, each as the bytes it is.
spec fn each_view(fields: Seq<&[u8]>) -> Seq<Seq<u8>> {
    Seq::new(fields.len(), |i: int| fields[i]@)
}

/// The login a payload carries, the password revealed. An error for a
/// version that is not TDS 7.2 to 7.4, a message shorter than its fixed
/// part, or a field that points past the message.
pub fn read_login7(body: &[u8]) -> (login: Result<Login7, TransportError>)
    ensures
        error::outcome(login) == login7_read(body@),
{
    let mut cursor: Cursor<'_> = Cursor::new(body);
    let _length: u32 = cursor.u32()?;
    let version: u32 = cursor.u32()?;
    if version / 0x100_0000 < 0x72 || version / 0x100_0000 > 0x74 {
        let mut message: String = "TDS ".to_owned();
        message.append(number::hex_u32_text(version).as_str());
        message.append(" is not 7.2 to 7.4");
        return Err(protocol_error(message.as_str()));
    }
    assert(body@.skip(4).skip(4) =~= body@.skip(8));
    let packet_size: u32 = cursor.u32()?;
    cursor.skip(12)?;  // program version, process id, connection id
    cursor.skip(4)?;  // the four flag bytes
    cursor.skip(8)?;  // time zone, LCID
    let mut fields: Vec<&[u8]> = Vec::new();
    let mut i: usize = 0;
    proof {
        assert(body@.skip(8).skip(4).skip(12).skip(4).skip(8) =~= body@.skip(36));
        assert(each_view(fields@) =~= Seq::empty());
        if fields_read(body@, cursor@, 9) is Ok {
            assert(each_view(fields@) + fields_read(body@, cursor@, 9)->Ok_0 =~= fields_read(
                body@,
                cursor@,
                9,
            )->Ok_0);
        }
    }
    while i < FIELDS
        invariant
            i <= FIELDS,
            body@.len() >= 36,
            0x72 <= wire::le32_value(body@.skip(4)) / 0x100_0000 <= 0x74,
            fields@.len() == i,
            match fields_read(body@, cursor@, (9 - i) as nat) {
                Ok(others) => fields_read(body@, body@.skip(36), 9) == Ok::<Seq<Seq<u8>>, Fault>(
                    each_view(fields@) + others,
                ),
                Err(fault) => fields_read(body@, body@.skip(36), 9) == Err::<
                    Seq<Seq<u8>>,
                    Fault,
                >(fault),
            },
        decreases FIELDS - i,
    {
        let ghost before = fields@;
        let ghost s = cursor@;
        proof {
            reveal_with_fuel(fields_read, 2);
        }
        let field: &[u8] = next_field(&mut cursor, body)?;
        fields.push(field);
        proof {
            if let Ok(others) = fields_read(body@, cursor@, (8 - i) as nat) {
                assert(each_view(fields@) + others =~= each_view(before) + (seq![field@] + others));
            }
        }
        i = i + 1;
    }
    assert(each_view(fields@) + Seq::empty() =~= each_view(fields@));
    Ok(
        Login7 {
            login: Login {
                user: wire::from_ucs2(fields[1]),
                password: wire::from_ucs2(reveal_password(fields[2]).as_slice()),
            },
            database: wire::from_ucs2(fields[8]),
            hostname: wire::from_ucs2(fields[0]),
            app_name: wire::from_ucs2(fields[3]),
            server_name: wire::from_ucs2(fields[4]),
            library: wire::from_ucs2(fields[6]),
            language: wire::from_ucs2(fields[7]),
            packet_size,
        },
    )
}

/// True of `fields` from `at` that the offset table can name: each that is
/// not empty begins where a u16 can say and has as many characters.
pub open spec fn nameable(fields: Seq<Seq<u8>>, at: nat) -> bool
    decreases fields.len(),
{
    fields.len() == 0 || {
        &&& fields[0].len() == 0 || (at <= 0xFFFF && fields[0].len() / 2 <= 0xFFFF)
        &&& nameable(fields.skip(1), at + fields[0].len())
    }
}

/// Fields that the table can name are read back from where it says they are.
#[verifier::spinoff_prover]
proof fn lemma_fields_read_back(body: Seq<u8>, fields: Seq<Seq<u8>>, at: nat, rest: Seq<u8>)
    requires
        nameable(fields, at),
        forall|i: int| 0 <= i < fields.len() ==> #[trigger] fields[i].len() % 2 == 0,
        at + field_tail(fields).len() <= body.len(),
        body.skip(at as int).take(field_tail(fields).len() as int) == field_tail(fields),
    ensures
        fields_read(body, field_table(fields, at) + rest, fields.len()) == Ok::<
            Seq<Seq<u8>>,
            Fault,
        >(fields),
    decreases fields.len(),
{
    if fields.len() == 0 {
        assert(fields =~= Seq::empty());
    } else {
        let field = fields[0];
        let others = fields.skip(1);
        let behind = field_table(others, at + field.len()) + rest;
        assert forall|i: int| 0 <= i < others.len() implies #[trigger] others[i].len() % 2
            == 0 by {
            assert(others[i] == fields[i + 1]);
        }
        assert(field.len() % 2 == 0);
        lemma_tail_splits(body, fields, at);
        lemma_fields_read_back(body, others, at + field.len(), rest);
        assert(field_table(fields, at) + rest =~= wire::le16(wire::saturated(at)) + (wire::le16(
            wire::saturated(field.len() / 2),
        ) + behind));
        lemma_field_reads_back(body, field, at, behind, others);
        assert(seq![field] + others =~= fields);
    }
}

/// Where the tail's fields stand in `body`: the first of them at `at`, the
/// others behind it.
#[verifier::spinoff_prover]
proof fn lemma_tail_splits(body: Seq<u8>, fields: Seq<Seq<u8>>, at: nat)
    requires
        fields.len() > 0,
        at + field_tail(fields).len() <= body.len(),
        body.skip(at as int).take(field_tail(fields).len() as int) == field_tail(fields),
    ensures
        ({
            let next = at + fields[0].len();
            let others = field_tail(fields.skip(1));
            &&& next + others.len() <= body.len()
            &&& body.subrange(at as int, next as int) == fields[0]
            &&& body.skip(next as int).take(others.len() as int) == others
        }),
{
    let field = fields[0];
    let tail = field_tail(fields);
    let next = at + field.len();
    let others = field_tail(fields.skip(1));
    let part = body.skip(at as int).take(tail.len() as int);
    assert(tail == field + others);
    assert(body.subrange(at as int, next as int) =~= part.take(field.len() as int));
    assert(tail.take(field.len() as int) =~= field);
    assert(body.skip(next as int).take(others.len() as int) =~= part.skip(field.len() as int));
    assert(tail.skip(field.len() as int) =~= others);
}

/// One field reads back from where its entry of the table says it is, and the
/// others behind it.
#[verifier::spinoff_prover]
proof fn lemma_field_reads_back(
    body: Seq<u8>,
    field: Seq<u8>,
    at: nat,
    behind: Seq<u8>,
    others: Seq<Seq<u8>>,
)
    requires
        field.len() % 2 == 0,
        field.len() == 0 || (at <= 0xFFFF && field.len() / 2 <= 0xFFFF),
        at + field.len() <= body.len(),
        body.subrange(at as int, (at + field.len()) as int) == field,
        fields_read(body, behind, others.len()) == Ok::<Seq<Seq<u8>>, Fault>(others),
    ensures
        fields_read(
            body,
            wire::le16(wire::saturated(at)) + (wire::le16(wire::saturated(field.len() / 2))
                + behind),
            others.len() + 1,
        ) == Ok::<Seq<Seq<u8>>, Fault>(seq![field] + others),
{
    let offset = wire::saturated(at);
    let chars = wire::saturated(field.len() / 2);
    let s = wire::le16(offset) + (wire::le16(chars) + behind);
    wire::lemma_u16_reads_back(offset, wire::le16(chars) + behind);
    wire::lemma_u16_reads_back(chars, behind);
    assert(s.skip(2).skip(2) =~= s.skip(4));
    if field.len() == 0 {
        assert(body.subrange(offset as int, offset as int) =~= field);
    }
}

/// Where a login's parts stand on the wire.
pub proof fn lemma_login_layout(login: Login7View, process_id: u32)
    ensures
        ({
            let body = login7_bytes(login, process_id);
            let fields = login_fields(login);
            let tail = field_tail(fields);
            &&& body.len() == 94 + tail.len()
            &&& wire::le32_value(body.skip(4)) == TDS_7_4
            &&& wire::le32_value(body.skip(8)) == login.packet_size
            &&& body.skip(36) == field_table(fields, 94) + (login_closing(94 + tail.len()) + tail)
            &&& body.skip(94).take(tail.len() as int) == tail
        }),
{
    let body = login7_bytes(login, process_id);
    let fields = login_fields(login);
    let tail = field_tail(fields);
    let fixed = login_fixed(94 + tail.len(), login.packet_size, process_id);
    lemma_table_length(fields, 94);
    assert(fixed.len() == 36);
    wire::lemma_u32_reads_back(TDS_7_4, Seq::empty());
    wire::lemma_u32_reads_back(login.packet_size, Seq::empty());
    assert(forall|i: int| 0 <= i < 36 ==> body[i] == fixed[i]);
    assert(forall|i: int| 0 <= i < 4 ==> fixed[4 + i] == #[trigger] wire::le32(TDS_7_4)[i]);
    assert(forall|i: int|
        0 <= i < 4 ==> fixed[8 + i] == #[trigger] wire::le32(login.packet_size)[i]);
    assert(wire::le32_value(body.skip(4)) == wire::le32_value(
        wire::le32(TDS_7_4) + Seq::empty(),
    ));
    assert(wire::le32_value(body.skip(8)) == wire::le32_value(
        wire::le32(login.packet_size) + Seq::empty(),
    ));
    assert(body.skip(36) =~= field_table(fields, 94) + (login_closing(94 + tail.len()) + tail));
    assert(body.skip(94).take(tail.len() as int) =~= tail);
}

/// The fields of a login say the login.
proof fn lemma_fields_say_the_login(login: Login7View)
    ensures
        login_of(login_fields(login), login.packet_size) == login,
        forall|i: int| 0 <= i < 9 ==> #[trigger] login_fields(login)[i].len() % 2 == 0,
{
    lemma_password_reads_back(wire::ucs2_bytes(login.login.password));
    wire::lemma_ucs2_reads_back(login.hostname);
    wire::lemma_ucs2_reads_back(login.login.user);
    wire::lemma_ucs2_reads_back(login.login.password);
    wire::lemma_ucs2_reads_back(login.app_name);
    wire::lemma_ucs2_reads_back(login.server_name);
    wire::lemma_ucs2_reads_back(login.library);
    wire::lemma_ucs2_reads_back(login.language);
    wire::lemma_ucs2_reads_back(login.database);
}

/// A login reads back as what it said, the password revealed, provided the
/// offset table can name its fields.
pub proof fn lemma_login_reads_back(login: Login7View, process_id: u32)
    requires
        nameable(login_fields(login), 94),
    ensures
        login7_read(login7_bytes(login, process_id)) == Ok::<Login7View, Fault>(login),
{
    lemma_login_layout(login, process_id);
    lemma_login_of_layout(login7_bytes(login, process_id), login);
}

/// A message whose parts stand where a login's do carries that login.
#[verifier::spinoff_prover]
proof fn lemma_login_of_layout(body: Seq<u8>, login: Login7View)
    requires
        nameable(login_fields(login), 94),
        body.len() == 94 + field_tail(login_fields(login)).len(),
        wire::le32_value(body.skip(4)) == TDS_7_4,
        wire::le32_value(body.skip(8)) == login.packet_size,
        ({
            let fields = login_fields(login);
            let tail = field_tail(fields);
            &&& body.skip(36) == field_table(fields, 94) + (login_closing(94 + tail.len()) + tail)
            &&& body.skip(94).take(tail.len() as int) == tail
        }),
    ensures
        login7_read(body) == Ok::<Login7View, Fault>(login),
{
    let fields = login_fields(login);
    let tail = field_tail(fields);
    lemma_fields_say_the_login(login);
    assert(fields.len() == 9);
    lemma_fields_read_back(body, fields, 94, login_closing(94 + tail.len()) + tail);
    lemma_login_of_fields(body, fields, login.packet_size);
}

/// A message whose fields are read carries the login they say.
proof fn lemma_login_of_fields(body: Seq<u8>, fields: Seq<Seq<u8>>, packet_size: u32)
    requires
        body.len() >= 36,
        wire::le32_value(body.skip(4)) == TDS_7_4,
        wire::le32_value(body.skip(8)) == packet_size,
        fields_read(body, body.skip(36), 9) == Ok::<Seq<Seq<u8>>, Fault>(fields),
    ensures
        login7_read(body) == Ok::<Login7View, Fault>(login_of(fields, packet_size)),
{
}

/// Each field has four bytes in the offset table.
proof fn lemma_table_length(fields: Seq<Seq<u8>>, at: nat)
    ensures
        field_table(fields, at).len() == 4 * fields.len(),
    decreases fields.len(),
{
    if fields.len() > 0 {
        lemma_table_length(fields.skip(1), at + fields[0].len());
    }
}

} // verus!
