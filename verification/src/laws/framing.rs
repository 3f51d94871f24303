//! Messages in packets.

use vstd::prelude::*;

use crate::error::Fault;
use crate::laws::numbers::breaks_off;
use crate::wire;

verus! {

/// A message that was read: its type and its payload.
pub type Whole = Option<(u8, Seq<u8>)>;

/// The packet types of the protocol, and no others.
pub proof fn lemma_packet_types(kind: u8)
    ensures
        wire::packet_type(kind) <==> (1 <= kind <= 4 || 6 <= kind <= 8 || kind == 14 || 16 <= kind
            <= 18),
{
    let table = seq![0x01u8, 0x02, 0x03, 0x04, 0x06, 0x07, 0x08, 0x0E, 0x10, 0x11, 0x12];
    assert(table[0] == 0x01 && table[1] == 0x02 && table[2] == 0x03 && table[3] == 0x04 && table[4]
        == 0x06 && table[5] == 0x07 && table[6] == 0x08 && table[7] == 0x0E && table[8] == 0x10
        && table[9] == 0x11 && table[10] == 0x12);
}

/// A packet brings its body, whatever its header says of anything but its
/// type, its length and whether it is the last: the last ends the message,
/// and behind any other the message goes on.
pub proof fn lemma_a_packet_brings_its_body(
    kind: Option<u8>,
    had: Seq<u8>,
    header: Seq<u8>,
    body: Seq<u8>,
    rest: Seq<u8>,
)
    requires
        header.len() == 8,
        256 * header[2] + header[3] == 8 + body.len(),
        8 + body.len() <= 32767,
        had.len() + body.len() <= 67_108_864,
        match kind {
            Some(k) => k == header[0],
            None => 1 <= header[0] <= 4 || 6 <= header[0] <= 8 || header[0] == 14 || 16 <= header[0]
                <= 18,
        },
    ensures
        header[1] % 2 == 1 ==> wire::next_message(kind, had, header + body + rest) == (
            Ok::<Whole, Fault>(Some((header[0], had + body))),
            rest,
        ),
        header[1] % 2 == 0 ==> wire::next_message(kind, had, header + body + rest)
            == wire::next_message(Some(header[0]), had + body, rest),
{
    let s = header + body + rest;
    lemma_packet_types(header[0]);
    assert(s.take(8) =~= header);
    assert(s.skip(8) =~= body + rest);
    assert((body + rest).take(body.len() as int) =~= body);
    assert((body + rest).skip(body.len() as int) =~= rest);
    assert(wire::be16_value(header.skip(2)) == 8 + body.len());
}

/// The end of the bytes is the end between messages, and a failure in the
/// middle of one or of a packet.
pub proof fn lemma_the_peer_closes(
    kind: Option<u8>,
    k: u8,
    had: Seq<u8>,
    header: Seq<u8>,
    body: Seq<u8>,
)
    requires
        header.len() <= 8,
    ensures
        wire::next_message(None, had, Seq::empty()) == (
            Ok::<Whole, Fault>(None),
            Seq::<u8>::empty(),
        ),
        wire::next_message(Some(k), had, Seq::empty()).0 == Err::<Whole, Fault>(
            Fault { message: "the peer closed mid-message"@, retryable: false },
        ),
        0 < header.len() < 8 ==> wire::next_message(kind, had, header).0 == Err::<Whole, Fault>(
            breaks_off(),
        ),
        header.len() == 8 && 8 + body.len() < 256 * header[2] + header[3] <= 32767 && had.len() + (
        256 * header[2] + header[3] - 8) <= 67_108_864 && (kind == Some(header[0]) || kind is None && (
        1 <= header[0] <= 4 || 6 <= header[0] <= 8 || header[0] == 14 || 16 <= header[0] <= 18))
            ==> wire::next_message(kind, had, header + body).0 == Err::<Whole, Fault>(breaks_off()),
{
    let s = header + body;
    if header.len() == 8 {
        assert(s.take(8) =~= header);
        lemma_packet_types(header[0]);
    }
}

/// A packet is refused where its header is wrong, and for the first thing
/// that is: the type of a first packet, a change of type, a length past what
/// the protocol allows or short of the header, and a message that grows past
/// what is read.
pub proof fn lemma_a_packet_is_refused(
    kind: Option<u8>,
    had: Seq<u8>,
    header: Seq<u8>,
    rest: Seq<u8>,
)
    requires
        header.len() == 8,
    ensures
        ({
            let first = header[0];
            let length = 256 * header[2] + header[3];
            let known = 1 <= first <= 4 || 6 <= first <= 8 || first == 14 || 16 <= first <= 18;
            let belongs = match kind {
                Some(k) => k == first,
                None => known,
            };
            let read = wire::next_message(kind, had, header + rest).0;
            &&& kind is None && !known ==> read == Err::<Whole, Fault>(
                Fault {
                    message: seq![
                        '0',
                        'x',
                        "0123456789abcdef"@[first as int / 16],
                        "0123456789abcdef"@[first as int % 16],
                    ] + " is not a packet type; this is not the protocol"@,
                    retryable: false,
                },
            )
            &&& kind is Some && !belongs ==> read == Err::<Whole, Fault>(
                Fault { message: "a packet of another type mid-message"@, retryable: false },
            )
            &&& belongs && length > 32767 ==> read == Err::<Whole, Fault>(
                Fault { message: "a packet longer than the protocol allows"@, retryable: false },
            )
            &&& belongs && length < 8 ==> read == Err::<Whole, Fault>(
                Fault { message: "a packet shorter than its header"@, retryable: false },
            )
            &&& belongs && 8 <= length <= 32767 && had.len() + length - 8 > 67_108_864 ==> read
                == Err::<Whole, Fault>(
                Fault { message: "a message over what Xmip will read"@, retryable: false },
            )
        }),
{
    let s = header + rest;
    lemma_packet_types(header[0]);
    crate::laws::numbers::lemma_a_byte_is_named(header[0]);
    assert(s.take(8) =~= header);
    assert(wire::be16_value(header.skip(2)) == 256 * header[2] + header[3]);
}

/// The packets of a payload, each where those before it end: the `i`th
/// carries the `i`th piece of it, full but for the last, which is marked.
proof fn lemma_packet_in_its_place(kind: u8, payload: Seq<u8>, room: int, index: nat, i: int)
    requires
        0 <= i,
        0 < room <= 32759,
        i == 0 || i * room < payload.len(),
    ensures
        ({
            let message = wire::packets_from(kind, payload, room as nat, index);
            let at = i * (room + 8);
            let left = payload.len() - i * room;
            let n = if left <= room {
                left
            } else {
                room
            };
            &&& at + 8 + n <= message.len()
            &&& message[at] == kind
            &&& message[at + 1] == (if left <= room {
                1u8
            } else {
                0u8
            })
            &&& 256 * message[at + 2] + message[at + 3] == 8 + n
            &&& message[at + 4] == 0 && message[at + 5] == 0
            &&& message[at + 6] == (index + i) % 256
            &&& message[at + 7] == 0
            &&& message.subrange(at + 8, at + 8 + n) == payload.subrange(i * room, i * room + n)
            &&& left <= room ==> message.len() == at + 8 + n
        }),
    decreases i,
{
    let message = wire::packets_from(kind, payload, room as nat, index);
    if i == 0 {
        assert(0 * room == 0) by (nonlinear_arith);
        assert(0 * (room + 8) == 0) by (nonlinear_arith);
        if payload.len() <= room {
            assert(message.subrange(8, 8 + payload.len() as int) =~= payload.subrange(
                0,
                payload.len() as int,
            ));
        } else {
            assert(message.subrange(8, 8 + room) =~= payload.subrange(0, room));
        }
    } else {
        let j = i - 1;
        assert(i * room == j * room + room) by (nonlinear_arith)
            requires
                i == j + 1,
        ;
        assert(i * (room + 8) == j * (room + 8) + (room + 8)) by (nonlinear_arith)
            requires
                i == j + 1,
        ;
        assert(0 <= j * room && 0 <= j * (room + 8)) by (nonlinear_arith)
            requires
                0 <= j,
                0 < room,
        ;
        let head = wire::packet_bytes(kind, 0, payload.take(room), (index % 256) as u8);
        let others = payload.skip(room);
        let tail = wire::packets_from(kind, others, room as nat, index + 1);
        lemma_packet_in_its_place(kind, others, room, index + 1, j);
        assert(message == head + tail);
        assert(head.len() == room + 8);
        let at = i * (room + 8);
        let was = j * (room + 8);
        let left = payload.len() - i * room;
        let n = if left <= room {
            left
        } else {
            room
        };
        assert(message[at] == tail[was]);
        assert(message[at + 1] == tail[was + 1]);
        assert(message[at + 2] == tail[was + 2] && message[at + 3] == tail[was + 3]);
        assert(message[at + 4] == tail[was + 4] && message[at + 5] == tail[was + 5]);
        assert(message[at + 6] == tail[was + 6] && message[at + 7] == tail[was + 7]);
        assert(message.subrange(at + 8, at + 8 + n) =~= tail.subrange(was + 8, was + 8 + n));
        assert(others.subrange(j * room, j * room + n) =~= payload.subrange(
            i * room,
            i * room + n,
        ));
    }
}

/// A message is its payload in packets of the size agreed on, header
/// included: every packet but the last is full, the last alone is marked,
/// they are numbered from zero round and round, and nothing follows them.
pub proof fn lemma_a_message_is_packets(kind: u8, payload: Seq<u8>, size: u16, i: int)
    requires
        0 <= i,
        512 <= size <= 32767,
        i == 0 || i * (size - 8) < payload.len(),
    ensures
        ({
            let message = wire::message_bytes(kind, payload, size);
            let at = i * size;
            let from = i * (size - 8);
            let left = payload.len() - from;
            let n = if left <= size - 8 {
                left
            } else {
                size - 8
            };
            &&& at + 8 + n <= message.len()
            &&& message.subrange(at, at + 8) == seq![
                kind,
                if left <= size - 8 {
                    1u8
                } else {
                    0u8
                },
                ((8 + n) / 256) as u8,
                ((8 + n) % 256) as u8,
                0u8,
                0u8,
                (i % 256) as u8,
                0u8,
            ]
            &&& message.subrange(at + 8, at + 8 + n) == payload.subrange(from, from + n)
            &&& left <= size - 8 ==> message.len() == at + 8 + n
        }),
{
    let room = size - 8;
    let message = wire::message_bytes(kind, payload, size);
    lemma_packet_in_its_place(kind, payload, room, 0, i);
    assert(room + 8 == size);
    let at = i * size;
    assert(at >= 0) by (nonlinear_arith)
        requires
            at == i * size,
            0 <= i,
    ;
    let left = payload.len() - i * (size - 8);
    let n = if left <= size - 8 {
        left
    } else {
        size - 8
    };
    assert(message.subrange(at, at + 8) =~= seq![
        kind,
        if left <= size - 8 {
            1u8
        } else {
            0u8
        },
        ((8 + n) / 256) as u8,
        ((8 + n) % 256) as u8,
        0u8,
        0u8,
        (i % 256) as u8,
        0u8,
    ]);
}

/// A packet size the protocol does not allow is the nearest that it does.
pub proof fn lemma_the_packet_size_is_held(kind: u8, payload: Seq<u8>, size: u16)
    ensures
        size < 512 ==> wire::message_bytes(kind, payload, size) == wire::message_bytes(
            kind,
            payload,
            512,
        ),
        size > 32767 ==> wire::message_bytes(kind, payload, size) == wire::message_bytes(
            kind,
            payload,
            32767,
        ),
{
}

/// One packet is its type, its status, its length with the header in it, as
/// far as sixteen bits say it, its number and its payload.
pub proof fn lemma_a_packet_is_written(kind: u8, status: u8, payload: Seq<u8>, id: u8)
    ensures
        ({
            let length = if payload.len() <= 65527 {
                8 + payload.len()
            } else {
                65535
            };
            wire::packet_bytes(kind, status, payload, id) == seq![
                kind,
                status,
                (length / 256) as u8,
                (length % 256) as u8,
                0u8,
                0u8,
                id,
                0u8,
            ] + payload
        }),
{
    let length = if payload.len() <= 65527 {
        8 + payload.len()
    } else {
        65535
    };
    assert(wire::packet_bytes(kind, status, payload, id) =~= seq![
        kind,
        status,
        (length / 256) as u8,
        (length % 256) as u8,
        0u8,
        0u8,
        id,
        0u8,
    ] + payload);
}

/// A reader between messages has nothing, and a header that belongs says how
/// many bytes follow it: its length short of the header's own.
pub proof fn lemma_a_header_says_what_follows(kind: Option<u8>, had: nat, header: Seq<u8>)
    requires
        header.len() == 8,
        8 <= 256 * header[2] + header[3] <= 32767,
        had + 256 * header[2] + header[3] - 8 <= 67_108_864,
        match kind {
            Some(k) => k == header[0],
            None => 1 <= header[0] <= 4 || 6 <= header[0] <= 8 || header[0] == 14 || 16 <= header[0]
                <= 18,
        },
    ensures
        wire::packet_body(kind, had, header) == Ok::<nat, Fault>(
            (256 * header[2] + header[3] - 8) as nat,
        ),
        wire::ends_message(header[1]) <==> header[1] % 2 == 1,
        wire::nothing_yet() == (wire::Arriving { kind: None, last: false, payload: Seq::empty() }),
{
    lemma_packet_types(header[0]);
    assert(wire::be16_value(header.skip(2)) == 256 * header[2] + header[3]);
}

/// A header that does not belong is refused as reading the message is.
pub proof fn lemma_a_header_is_refused(
    kind: Option<u8>,
    had: Seq<u8>,
    header: Seq<u8>,
    rest: Seq<u8>,
    fault: Fault,
)
    requires
        header.len() == 8,
        wire::packet_body(kind, had.len(), header) == Err::<nat, Fault>(fault),
    ensures
        wire::next_message(kind, had, header + rest).0 == Err::<Whole, Fault>(fault),
{
    assert((header + rest).take(8) =~= header);
}

} // verus!
