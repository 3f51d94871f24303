//! The pre-login, both ways: the first message on a connection, before
//! anyone is named. A table of options — each a token, a big-endian
//! offset and a length — then the options' bytes, in a shape the two
//! sides share. Five options are spoken here: VERSION, ENCRYPTION,
//! INSTOPT, THREADID and MARS. The client says it does not support
//! encryption and the server agrees or demands it, and a demand stops
//! this crate, because TLS is `xmip-core-tls`'s per ADR-0033.
//! MARS is off: one batch at a time is what a Location runs. Anything
//! else in the table is read past.

use vstd::prelude::*;
use vstd::slice::slice_subrange;
use vstd::utf8::*;

use crate::error;
use crate::error::{protocol_error, Fault, TransportError};
use crate::text;
use crate::wire;
use crate::wire::Cursor;

verus! {

/// The sender's version: four bytes of version, two of sub-build.
pub const VERSION: u8 = 0x00;

/// One byte: one of the `ENCRYPT_*` answers.
pub const ENCRYPTION: u8 = 0x01;

/// The instance name, NUL-terminated.
pub const INSTOPT: u8 = 0x02;

/// The client's thread, four bytes; the server answers with none.
pub const THREADID: u8 = 0x03;

/// One byte: multiple active result sets, on or off.
pub const MARS: u8 = 0x04;

/// The end of the option table.
pub const TERMINATOR: u8 = 0xFF;

/// Encrypt the login only.
pub const ENCRYPT_OFF: u8 = 0x00;

/// Encrypt everything.
pub const ENCRYPT_ON: u8 = 0x01;

/// Encryption is not available on this side.
pub const ENCRYPT_NOT_SUP: u8 = 0x02;

/// Encryption is required by this side.
pub const ENCRYPT_REQ: u8 = 0x03;

/// What one side says before the login.
#[derive(Debug, PartialEq, Eq)]
pub struct Prelogin {
    pub version: [u8; 6],
    pub encryption: u8,
    pub instance: String,
    pub thread_id: u32,
    pub mars: bool,
}

/// What a [`Prelogin`] says.
#[verifier::ext_equal]
pub struct PreloginView {
    pub version: Seq<u8>,
    pub encryption: u8,
    pub instance: Seq<char>,
    pub thread_id: u32,
    pub mars: bool,
}

impl View for Prelogin {
    type V = PreloginView;

    open spec fn view(&self) -> PreloginView {
        PreloginView {
            version: self.version@,
            encryption: self.encryption,
            instance: self.instance@,
            thread_id: self.thread_id,
            mars: self.mars,
        }
    }
}

impl DeepView for Prelogin {
    type V = PreloginView;

    open spec fn deep_view(&self) -> PreloginView {
        self@
    }
}

impl Clone for Prelogin {
    fn clone(&self) -> (copy: Self)
        ensures
            copy == *self,
    {
        Prelogin {
            version: self.version,
            encryption: self.encryption,
            instance: self.instance.clone(),
            thread_id: self.thread_id,
            mars: self.mars,
        }
    }
}

/// What this crate says: version 0.0.1, no encryption, the default
/// instance, no thread, MARS off.
pub open spec fn default_prelogin() -> PreloginView {
    PreloginView {
        version: seq![0u8, 0, 0, 1, 0, 0],
        encryption: ENCRYPT_NOT_SUP,
        instance: Seq::empty(),
        thread_id: 0,
        mars: false,
    }
}

impl Default for Prelogin {
    /// What this crate says: version 0.0.1, no encryption, the default
    /// instance, no thread, MARS off.
    fn default() -> (prelogin: Self)
        ensures
            prelogin@ == default_prelogin(),
    {
        let prelogin: Prelogin = Prelogin {
            version: [0, 0, 0, 1, 0, 0],
            encryption: ENCRYPT_NOT_SUP,
            instance: String::new(),
            thread_id: 0,
            mars: false,
        };
        assert(prelogin@ =~= default_prelogin());
        prelogin
    }
}

/// One entry of the option table.
pub open spec fn option_entry(token: u8, offset: nat, length: nat) -> Seq<u8> {
    seq![token] + wire::be16(wire::saturated(offset)) + wire::be16(wire::saturated(length))
}

/// The bytes of the instance option: the name and its NUL.
pub open spec fn instance_bytes(instance: Seq<char>) -> Seq<u8> {
    encode_utf8(instance).push(0)
}

/// The option table: the five options in order, each where the one before
/// it ends, the first at 26.
pub open spec fn option_table(named: nat) -> Seq<u8> {
    option_entry(VERSION, 26, 6) + option_entry(ENCRYPTION, 32, 1) + option_entry(
        INSTOPT,
        33,
        named,
    ) + option_entry(THREADID, 33 + named, 4) + option_entry(MARS, 37 + named, 1) + seq![TERMINATOR]
}

/// `prelogin` as the payload on the wire.
pub open spec fn prelogin_bytes(prelogin: PreloginView) -> Seq<u8> {
    let name = instance_bytes(prelogin.instance);
    option_table(name.len()) + prelogin.version + seq![prelogin.encryption] + name + wire::le32(
        prelogin.thread_id,
    ) + seq![
        if prelogin.mars {
            1u8
        } else {
            0u8
        },
    ]
}

/// Appends one entry of the option table.
fn push_entry(table: &mut Vec<u8>, token: u8, offset: u16, length: u16)
    ensures
        final(table)@ == old(table)@ + (seq![token] + wire::be16(offset) + wire::be16(length)),
{
    table.push(token);
    wire::push_u16_be(table, offset);
    wire::push_u16_be(table, length);
    assert(table@ =~= old(table)@ + (seq![token] + wire::be16(offset) + wire::be16(length)));
}

/// `prelogin` as the payload on the wire.
#[must_use]
pub fn encode_prelogin(prelogin: &Prelogin) -> (out: Vec<u8>)
    ensures
        out@ == prelogin_bytes(prelogin@),
{
    let mut instance: Vec<u8> = text::bytes_of(prelogin.instance.as_str());
    instance.push(0);
    let named: usize = instance.len();
    let mut out: Vec<u8> = Vec::new();
    push_entry(&mut out, VERSION, 26, 6);
    push_entry(&mut out, ENCRYPTION, 32, 1);
    push_entry(&mut out, INSTOPT, 33, wire::saturated_sum(0, named));
    push_entry(&mut out, THREADID, wire::saturated_sum(33, named), 4);
    push_entry(&mut out, MARS, wire::saturated_sum(37, named), 1);
    out.push(TERMINATOR);
    assert(out@ =~= option_table(named as nat));
    wire::push_bytes(&mut out, prelogin.version.as_slice());
    out.push(prelogin.encryption);
    wire::push_bytes(&mut out, instance.as_slice());
    wire::push_u32(&mut out, prelogin.thread_id);
    out.push(
        if prelogin.mars {
            1
        } else {
            0
        },
    );
    assert(out@ =~= prelogin_bytes(prelogin@));
    out
}

/// `bytes` up to the first NUL.
pub open spec fn before_nul(bytes: Seq<u8>) -> Seq<u8>
    decreases bytes.len(),
{
    if bytes.len() == 0 || bytes[0] == 0 {
        Seq::empty()
    } else {
        seq![bytes[0]] + before_nul(bytes.skip(1))
    }
}

/// `prelogin` after an option of the table said `bytes`, or why it may not.
pub open spec fn with_option(prelogin: PreloginView, token: u8, bytes: Seq<u8>) -> Result<
    PreloginView,
    Fault,
> {
    if token == VERSION {
        Ok(
            PreloginView {
                version: Seq::new(
                    6,
                    |i: int|
                        if i < bytes.len() {
                            bytes[i]
                        } else {
                            prelogin.version[i]
                        },
                ),
                ..prelogin
            },
        )
    } else if token == ENCRYPTION {
        if bytes.len() == 0 {
            Err(error::fault("an empty encryption option"@))
        } else {
            Ok(PreloginView { encryption: bytes[0], ..prelogin })
        }
    } else if token == INSTOPT {
        Ok(PreloginView { instance: text::utf8_lossy(before_nul(bytes)), ..prelogin })
    } else if token == THREADID {
        if bytes.len() == 4 {
            Ok(PreloginView { thread_id: wire::le32_value(bytes), ..prelogin })
        } else {
            Ok(prelogin)
        }
    } else if token == MARS {
        Ok(PreloginView { mars: bytes.len() > 0 && bytes[0] != 0, ..prelogin })
    } else {
        Ok(prelogin)
    }
}

/// What the options still in the table, `s`, make of `prelogin`, each
/// pointing into `body`, or why they may not.
#[verifier::opaque]
pub open spec fn options_read(body: Seq<u8>, s: Seq<u8>, prelogin: PreloginView) -> Result<
    PreloginView,
    Fault,
>
    decreases s.len(),
{
    if s.len() >= 1 && s[0] == TERMINATOR {
        Ok(prelogin)
    } else if s.len() < 5 {
        Err(wire::past_the_message())
    } else {
        let offset = wire::be16_value(s.skip(1)) as int;
        let length = wire::be16_value(s.skip(3)) as int;
        if offset + length > body.len() {
            Err(error::fault("a pre-login option that points past the message"@))
        } else {
            match with_option(prelogin, s[0], body.subrange(offset, offset + length)) {
                Ok(next) => options_read(body, s.skip(5), next),
                Err(fault) => Err(fault),
            }
        }
    }
}

/// `bytes` up to the first NUL.
fn up_to_nul(bytes: &[u8]) -> (name: &[u8])
    ensures
        name@ == before_nul(bytes@),
{
    let mut i: usize = 0;
    assert(bytes@.skip(0) =~= bytes@);
    assert(bytes@.take(0) + before_nul(bytes@) =~= before_nul(bytes@));
    while i < bytes.len() && bytes[i] != 0
        invariant
            i <= bytes.len(),
            bytes@.take(i as int) + before_nul(bytes@.skip(i as int)) == before_nul(bytes@),
        decreases bytes.len() - i,
    {
        proof {
            let rest = bytes@.skip(i as int);
            assert(rest.skip(1) =~= bytes@.skip(i + 1));
            assert(bytes@.take(i + 1) + before_nul(rest.skip(1)) =~= bytes@.take(i as int) + (
            seq![rest[0]] + before_nul(rest.skip(1))));
        }
        i = i + 1;
    }
    assert(bytes@.take(i as int) + Seq::<u8>::empty() =~= bytes@.take(i as int));
    slice_subrange(bytes, 0, i)
}

/// Takes what an option of the table says; an error where it says what it
/// may not, `prelogin` then being as it was.
fn take_option(prelogin: &mut Prelogin, token: u8, bytes: &[u8]) -> (taken: Result<
    (),
    TransportError,
>)
    ensures
        match with_option(old(prelogin)@, token, bytes@) {
            Ok(next) => taken is Ok && final(prelogin)@ == next,
            Err(fault) => {
                &&& taken matches Err(error)
                &&& error@ == fault
                &&& final(prelogin)@ == old(prelogin)@
            },
        },
{
    if token == VERSION {
        let mut version: [u8; 6] = prelogin.version;
        let mut i: usize = 0;
        while i < 6 && i < bytes.len()
            invariant
                i <= 6,
                i <= bytes.len(),
                forall|j: int|
                    0 <= j < 6 ==> version@[j] == (if j < i {
                        bytes@[j]
                    } else {
                        prelogin.version@[j]
                    }),
            decreases 6 - i,
        {
            version[i] = bytes[i];
            i = i + 1;
        }
        prelogin.version = version;
        assert(prelogin@ =~= with_option(old(prelogin)@, token, bytes@)->Ok_0);
    } else if token == ENCRYPTION {
        if bytes.len() == 0 {
            return Err(protocol_error("an empty encryption option"));
        }
        prelogin.encryption = bytes[0];
    } else if token == INSTOPT {
        prelogin.instance = text::lossy_utf8(up_to_nul(bytes));
    } else if token == THREADID {
        if bytes.len() == 4 {
            prelogin.thread_id = bytes[0] as u32 + 0x100 * bytes[1] as u32 + 0x1_0000
                * bytes[2] as u32 + 0x100_0000 * bytes[3] as u32;
        }
    } else if token == MARS {
        prelogin.mars = bytes.len() > 0 && bytes[0] != 0;
    }
    Ok(())
}

/// The pre-login a payload carries. An option missing from the table is
/// left at its default; one this crate does not know is read past. An error
/// where the table has no terminator, where an option points past the
/// payload, or where the encryption option is empty.
pub fn read_prelogin(body: &[u8]) -> (prelogin: Result<Prelogin, TransportError>)
    ensures
        error::outcome(prelogin) == options_read(body@, body@, default_prelogin()),
{
    let mut cursor: Cursor<'_> = Cursor::new(body);
    let mut prelogin: Prelogin = Prelogin::default();
    loop
        invariant
            options_read(body@, cursor@, prelogin@) == options_read(
                body@,
                body@,
                default_prelogin(),
            ),
        decreases cursor@.len(),
    {
        let ghost s = cursor@;
        reveal(options_read);
        let token: u8 = cursor.byte()?;
        if token == TERMINATOR {
            return Ok(prelogin);
        }
        let offset: usize = cursor.u16_be()? as usize;
        let length: usize = cursor.u16_be()? as usize;
        proof {
            assert(s.skip(1).skip(2) =~= s.skip(3));
            assert(s.skip(3).skip(2) =~= s.skip(5));
        }
        if offset + length > body.len() {
            return Err(protocol_error("a pre-login option that points past the message"));
        }
        take_option(&mut prelogin, token, slice_subrange(body, offset, offset + length))?;
    }
}

/// What stands ahead of a NUL is read up to it.
proof fn lemma_named_before_nul(name: Seq<u8>)
    requires
        forall|i: int| 0 <= i < name.len() ==> #[trigger] name[i] != 0,
    ensures
        before_nul(name.push(0)) == name,
    decreases name.len(),
{
    if name.len() > 0 {
        assert(name[0] != 0);
        lemma_named_before_nul(name.skip(1));
        assert(name.push(0).skip(1) =~= name.skip(1).push(0));
        assert(seq![name[0]] + name.skip(1) =~= name);
    }
}

/// One entry of the table read: its option is taken, and the rest of the
/// table follows.
proof fn lemma_entry_reads_back(
    body: Seq<u8>,
    token: u8,
    offset: nat,
    bytes: Seq<u8>,
    rest: Seq<u8>,
    before: PreloginView,
    after: PreloginView,
)
    requires
        token != TERMINATOR,
        offset + bytes.len() <= body.len(),
        offset <= 0xFFFF,
        bytes.len() <= 0xFFFF,
        body.subrange(offset as int, (offset + bytes.len()) as int) == bytes,
        with_option(before, token, bytes) == Ok::<PreloginView, Fault>(after),
    ensures
        options_read(body, option_entry(token, offset, bytes.len()) + rest, before)
            == options_read(body, rest, after),
{
    reveal(options_read);
    let s = option_entry(token, offset, bytes.len()) + rest;
    wire::lemma_u16_reads_back(offset as u16, Seq::empty());
    wire::lemma_u16_reads_back(bytes.len() as u16, Seq::empty());
    let first = wire::be16(offset as u16) + Seq::empty();
    let second = wire::be16(bytes.len() as u16) + Seq::empty();
    assert(s.skip(1)[0] == first[0] && s.skip(1)[1] == first[1]);
    assert(s.skip(3)[0] == second[0] && s.skip(3)[1] == second[1]);
    assert(s.skip(5) =~= rest);
}

/// The byte of the MARS option.
spec fn mars_bytes(mars: bool) -> Seq<u8> {
    seq![
        if mars {
            1u8
        } else {
            0u8
        },
    ]
}

/// The options' bytes of a pre-login, one behind the other.
spec fn option_data(prelogin: PreloginView) -> Seq<u8> {
    prelogin.version + seq![prelogin.encryption] + instance_bytes(prelogin.instance) + wire::le32(
        prelogin.thread_id,
    ) + mars_bytes(prelogin.mars)
}

/// The options' bytes stand where the table says they do.
proof fn lemma_option_data(prelogin: PreloginView)
    requires
        prelogin.version.len() == 6,
    ensures
        ({
            let body = prelogin_bytes(prelogin);
            let named = instance_bytes(prelogin.instance).len() as int;
            &&& body.len() == 38 + named
            &&& body.subrange(26, 32) == prelogin.version
            &&& body.subrange(32, 33) == seq![prelogin.encryption]
            &&& body.subrange(33, 33 + named) == instance_bytes(prelogin.instance)
            &&& body.subrange(33 + named, 37 + named) == wire::le32(prelogin.thread_id)
            &&& body.subrange(37 + named, 38 + named) == mars_bytes(prelogin.mars)
        }),
{
    let body = prelogin_bytes(prelogin);
    let name = instance_bytes(prelogin.instance);
    let named = name.len() as int;
    let table = option_table(name.len());
    let data = option_data(prelogin);
    assert(table.len() == 26);
    assert(body =~= table + data);
    assert(data.subrange(0, 6) =~= prelogin.version);
    assert(data.subrange(6, 7) =~= seq![prelogin.encryption]);
    assert(data.subrange(7, 7 + named) =~= name);
    assert(data.subrange(7 + named, 11 + named) =~= wire::le32(prelogin.thread_id));
    assert(data.subrange(11 + named, 12 + named) =~= mars_bytes(prelogin.mars));
    assert forall|i: int, j: int| 0 <= i <= j <= data.len() implies #[trigger] data.subrange(i, j)
        == body.subrange(26 + i, 26 + j) by {
        assert(data.subrange(i, j) =~= body.subrange(26 + i, 26 + j));
    }
    assert(data.subrange(0, 6) == body.subrange(26, 32));
    assert(data.subrange(6, 7) == body.subrange(32, 33));
    assert(data.subrange(7, 7 + named) == body.subrange(33, 33 + named));
    assert(data.subrange(7 + named, 11 + named) == body.subrange(33 + named, 37 + named));
    assert(data.subrange(11 + named, 12 + named) == body.subrange(37 + named, 38 + named));
}

/// What the instance and the thread of a pre-login come to when they are
/// read.
proof fn lemma_option_values(prelogin: PreloginView)
    requires
        !prelogin.instance.contains('\0'),
    ensures
        text::utf8_lossy(before_nul(instance_bytes(prelogin.instance))) == prelogin.instance,
        wire::le32_value(wire::le32(prelogin.thread_id)) == prelogin.thread_id,
{
    text::lemma_utf8_holds_no_zero(prelogin.instance);
    lemma_named_before_nul(encode_utf8(prelogin.instance));
    encode_utf8_valid_utf8(prelogin.instance);
    encode_utf8_decode_utf8(prelogin.instance);
    wire::lemma_u32_reads_back(prelogin.thread_id, Seq::empty());
    assert(wire::le32(prelogin.thread_id) + Seq::empty() =~= wire::le32(prelogin.thread_id));
}

/// A pre-login reads back as what it said. The instance is the name up to a
/// NUL, so one that holds a NUL does not; nor does one so long that the
/// table cannot point past it.
#[verifier::spinoff_prover]
pub proof fn lemma_prelogin_reads_back(prelogin: PreloginView)
    requires
        prelogin.version.len() == 6,
        !prelogin.instance.contains('\0'),
        encode_utf8(prelogin.instance).len() + 38 <= 0xFFFF,
    ensures
        options_read(prelogin_bytes(prelogin), prelogin_bytes(prelogin), default_prelogin()) == Ok::<
            PreloginView,
            Fault,
        >(prelogin),
{
    let body = prelogin_bytes(prelogin);
    let named = instance_bytes(prelogin.instance).len();
    let s5 = seq![TERMINATOR] + option_data(prelogin);
    let s2 = option_entry(INSTOPT, 33, named) + (option_entry(THREADID, 33 + named, 4) + (
    option_entry(MARS, 37 + named, 1) + s5));
    lemma_entries_stand_in_turn(prelogin);
    lemma_option_data(prelogin);
    let p1 = PreloginView { version: prelogin.version, ..default_prelogin() };
    let p2 = PreloginView { encryption: prelogin.encryption, ..p1 };
    lemma_first_options(body, prelogin, s2);
    lemma_other_options(body, prelogin, p2, s5);
    lemma_terminator_reads_back(body, option_data(prelogin), prelogin);
}

/// The table's entries stand one behind the other, before the options' bytes.
#[verifier::spinoff_prover]
proof fn lemma_entries_stand_in_turn(prelogin: PreloginView)
    ensures
        ({
            let named = instance_bytes(prelogin.instance).len();
            prelogin_bytes(prelogin) == option_entry(VERSION, 26, 6) + (option_entry(
                ENCRYPTION,
                32,
                1,
            ) + (option_entry(INSTOPT, 33, named) + (option_entry(THREADID, 33 + named, 4) + (
            option_entry(MARS, 37 + named, 1) + (seq![TERMINATOR] + option_data(prelogin))))))
        }),
{
    let name = instance_bytes(prelogin.instance);
    lemma_five_behind(
        option_table(name.len()),
        prelogin.version,
        seq![prelogin.encryption],
        name,
        wire::le32(prelogin.thread_id),
        mars_bytes(prelogin.mars),
    );
    lemma_six_before(
        option_entry(VERSION, 26, 6),
        option_entry(ENCRYPTION, 32, 1),
        option_entry(INSTOPT, 33, name.len()),
        option_entry(THREADID, 33 + name.len(), 4),
        option_entry(MARS, 37 + name.len(), 1),
        seq![TERMINATOR],
        option_data(prelogin),
    );
}

/// What is put behind `table` part by part is put behind it whole.
proof fn lemma_five_behind(
    table: Seq<u8>,
    a: Seq<u8>,
    b: Seq<u8>,
    c: Seq<u8>,
    d: Seq<u8>,
    e: Seq<u8>,
)
    ensures
        table + a + b + c + d + e == table + (a + b + c + d + e),
{
    assert(table + a + b + c + d + e =~= table + (a + b + c + d + e));
}

/// What stands before `rest` whole stands before it part by part.
proof fn lemma_six_before(
    a: Seq<u8>,
    b: Seq<u8>,
    c: Seq<u8>,
    d: Seq<u8>,
    e: Seq<u8>,
    f: Seq<u8>,
    rest: Seq<u8>,
)
    ensures
        a + b + c + d + e + f + rest == a + (b + (c + (d + (e + (f + rest))))),
{
    assert(a + b + c + d + e + f + rest =~= a + (b + (c + (d + (e + (f + rest))))));
}

/// The version and the encryption read back.
#[verifier::spinoff_prover]
proof fn lemma_first_options(body: Seq<u8>, prelogin: PreloginView, rest: Seq<u8>)
    requires
        prelogin.version.len() == 6,
        body.len() >= 33,
        body.subrange(26, 32) == prelogin.version,
        body.subrange(32, 33) == seq![prelogin.encryption],
    ensures
        options_read(
            body,
            option_entry(VERSION, 26, 6) + (option_entry(ENCRYPTION, 32, 1) + rest),
            default_prelogin(),
        ) == options_read(
            body,
            rest,
            PreloginView {
                version: prelogin.version,
                encryption: prelogin.encryption,
                ..default_prelogin()
            },
        ),
{
    let p0 = default_prelogin();
    let p1 = PreloginView { version: prelogin.version, ..p0 };
    let p2 = PreloginView { encryption: prelogin.encryption, ..p1 };
    let behind = option_entry(ENCRYPTION, 32, 1) + rest;
    assert(with_option(p0, VERSION, prelogin.version)->Ok_0 =~= p1);
    lemma_entry_reads_back(body, VERSION, 26, prelogin.version, behind, p0, p1);
    lemma_entry_reads_back(body, ENCRYPTION, 32, seq![prelogin.encryption], rest, p1, p2);
}

/// The instance, the thread and MARS read back.
#[verifier::spinoff_prover]
proof fn lemma_other_options(
    body: Seq<u8>,
    prelogin: PreloginView,
    before: PreloginView,
    rest: Seq<u8>,
)
    requires
        !prelogin.instance.contains('\0'),
        before.version == prelogin.version,
        before.encryption == prelogin.encryption,
        instance_bytes(prelogin.instance).len() + 37 <= 0xFFFF,
        ({
            let named = instance_bytes(prelogin.instance).len() as int;
            &&& body.len() == 38 + named
            &&& body.subrange(33, 33 + named) == instance_bytes(prelogin.instance)
            &&& body.subrange(33 + named, 37 + named) == wire::le32(prelogin.thread_id)
            &&& body.subrange(37 + named, 38 + named) == mars_bytes(prelogin.mars)
        }),
    ensures
        ({
            let named = instance_bytes(prelogin.instance).len();
            options_read(
                body,
                option_entry(INSTOPT, 33, named) + (option_entry(THREADID, 33 + named, 4) + (
                option_entry(MARS, 37 + named, 1) + rest)),
                before,
            ) == options_read(body, rest, prelogin)
        }),
{
    let name = instance_bytes(prelogin.instance);
    let named = name.len();
    let thread = wire::le32(prelogin.thread_id);
    let s2 = option_entry(MARS, 37 + named, 1) + rest;
    let s1 = option_entry(THREADID, 33 + named, 4) + s2;
    let p1 = PreloginView { instance: prelogin.instance, ..before };
    let p2 = PreloginView { thread_id: prelogin.thread_id, ..p1 };
    lemma_option_values(prelogin);
    lemma_entry_reads_back(body, INSTOPT, 33, name, s1, before, p1);
    lemma_entry_reads_back(body, THREADID, 33 + named, thread, s2, p1, p2);
    lemma_entry_reads_back(body, MARS, 37 + named, mars_bytes(prelogin.mars), rest, p2, prelogin);
}

/// The terminator read: the options are what they have come to.
proof fn lemma_terminator_reads_back(body: Seq<u8>, rest: Seq<u8>, prelogin: PreloginView)
    ensures
        options_read(body, seq![TERMINATOR] + rest, prelogin) == Ok::<PreloginView, Fault>(
            prelogin,
        ),
{
    reveal(options_read);
}

/// An option this crate does not know is read past, wherever in the table it
/// stands and whatever it says.
pub proof fn lemma_unknown_option_is_read_past(
    body: Seq<u8>,
    token: u8,
    offset: nat,
    length: nat,
    rest: Seq<u8>,
    prelogin: PreloginView,
)
    requires
        MARS < token < TERMINATOR,
        offset <= 0xFFFF,
        length <= 0xFFFF,
        offset + length <= body.len(),
    ensures
        options_read(body, option_entry(token, offset, length) + rest, prelogin) == options_read(
            body,
            rest,
            prelogin,
        ),
{
    let bytes = body.subrange(offset as int, (offset + length) as int);
    lemma_entry_reads_back(body, token, offset, bytes, rest, prelogin, prelogin);
}

/// A table that ends where it begins says what this crate says.
pub proof fn lemma_missing_options_are_defaulted(rest: Seq<u8>)
    ensures
        ({
            let body = seq![TERMINATOR] + rest;
            options_read(body, body, default_prelogin()) == Ok::<PreloginView, Fault>(
                default_prelogin(),
            )
        }),
{
    lemma_terminator_reads_back(seq![TERMINATOR] + rest, rest, default_prelogin());
}

} // verus!
