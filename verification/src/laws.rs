//! Protocol-wide guarantees, stated over the spec-level models that
//! the executable functions' contracts use: round-tripping of a sent
//! frame, rejection of tampered payloads and of oversized length
//! fields, timeout progress reporting, self-healing resynchronization
//! and read-ahead preservation.

use vstd::prelude::*;

use crate::buffer::{find_first, lemma_find_first, lemma_find_first_converse};
use crate::crc16::spec_crc16;
use crate::framed::{frag_model, sync_model, AsyncReadReceiverError, FragOutcome, SyncModel};
use crate::proto::{
    frame_bytes, le16, lemma_le16_roundtrip, receive_after_sync, receive_outcome, spec_u16_le,
    RecvOutcome,
};
use crate::reader::{read_model, ReadModel};
use crate::source::SourceEvent;

verus! {

/// A byte sequence delivered by the source as one wait outcome per
/// byte.
pub open spec fn to_events(bytes: Seq<u8>) -> Seq<SourceEvent> {
    Seq::new(bytes.len(), |i: int| SourceEvent::Byte(bytes[i]))
}

/// The part of a frame's wire image that enters the rolling buffer:
/// everything after the sync marker.
pub open spec fn frame_body(payload: Seq<u8>) -> Seq<u8> {
    le16(payload.len() as u16) + payload + le16(spec_crc16(payload))
}

/// Reading from a byte-only event prefix obtains exactly those bytes.
proof fn lemma_read_model_fill(bytes: Seq<u8>, extra: Seq<SourceEvent>)
    ensures
        (read_model(to_events(bytes) + extra, bytes.len()) == ReadModel::Filled {
            bytes,
            used: bytes.len(),
        }),
    decreases bytes.len(),
{
    let e = to_events(bytes) + extra;
    if bytes.len() == 0 {
        assert(read_model(e, 0) =~= ReadModel::Filled { bytes, used: 0nat });
    } else {
        assert(e[0] == SourceEvent::Byte(bytes[0]));
        assert(e.skip(1) =~= to_events(bytes.skip(1)) + extra);
        lemma_read_model_fill(bytes.skip(1), extra);
        assert(seq![bytes[0]] + bytes.skip(1) =~= bytes);
        assert(read_model(e, bytes.len()) =~= ReadModel::Filled { bytes, used: bytes.len() });
    }
}

/// One fragment request that must pull `bytes` whole from a byte-only
/// event prefix completes, appending exactly those bytes.
proof fn lemma_frag_fill(b: Seq<u8>, bytes: Seq<u8>, extra: Seq<SourceEvent>, cap: nat)
    requires
        b.len() + bytes.len() <= cap,
    ensures
        (frag_model(b, to_events(bytes) + extra, b.len(), bytes.len(), cap) == FragOutcome::Done {
            buf: b + bytes,
            events: extra,
        }),
{
    if bytes.len() == 0 {
        assert(b + bytes =~= b);
        assert((to_events(bytes) + extra) =~= extra);
    } else {
        lemma_read_model_fill(bytes, extra);
        assert((to_events(bytes) + extra).skip(bytes.len() as int) =~= extra);
        assert(frag_model(b, to_events(bytes) + extra, b.len(), bytes.len(), cap)
            =~= FragOutcome::Done { buf: b + bytes, events: extra });
    }
}

/// The fields of a buffered frame body, possibly followed by
/// read-ahead bytes `tail`: the length field reads back the payload
/// length, the payload slice is the payload, the trailer reads back
/// its 16-bit value, and removing the frame leaves exactly `tail`.
proof fn lemma_body_fields(payload: Seq<u8>, t0: u8, t1: u8, tail: Seq<u8>)
    requires
        payload.len() <= 0xffff,
    ensures
        ({
            let b = le16(payload.len() as u16) + payload + seq![t0, t1] + tail;
            &&& b.len() == 4 + payload.len() + tail.len()
            &&& spec_u16_le(b[0], b[1]) == payload.len()
            &&& b.subrange(2, 2 + payload.len() as int) == payload
            &&& b[2 + payload.len() as int] == t0
            &&& b[3 + payload.len() as int] == t1
            &&& b.skip(4 + payload.len() as int) == tail
        }),
{
    let b = le16(payload.len() as u16) + payload + seq![t0, t1] + tail;
    let v = payload.len() as u16;
    lemma_le16_roundtrip(v);
    assert(b[0] == le16(v)[0]);
    assert(b[1] == le16(v)[1]);
    assert(b.subrange(2, 2 + payload.len() as int) =~= payload);
    assert(b.skip(4 + payload.len() as int) =~= tail);
}

/// After resynchronization, a complete well-formed frame body
/// delivered byte by byte from the source is assembled, validated and
/// consumed whole; a body whose trailer does not match the CRC-16 of
/// its payload is rejected as a CRC failure with the assembled frame
/// left in the buffer.
proof fn lemma_after_sync_streamed(payload: Seq<u8>, t0: u8, t1: u8, cap: nat)
    requires
        payload.len() <= 0xffff,
        payload.len() + 5 <= cap,
    ensures
        ({
            let body = le16(payload.len() as u16) + payload + seq![t0, t1];
            let expected = if spec_u16_le(t0, t1) == spec_crc16(payload) {
                RecvOutcome::Received {
                    payload,
                    buf: Seq::<u8>::empty(),
                    events: Seq::<SourceEvent>::empty(),
                }
            } else {
                RecvOutcome::CrcFail { buf: body, events: Seq::<SourceEvent>::empty() }
            };
            receive_after_sync(Seq::<u8>::empty(), to_events(body), cap) == expected
        }),
{
    let lenf = le16(payload.len() as u16);
    let body = lenf + payload + seq![t0, t1];
    let b0 = Seq::<u8>::empty();

    // phase: length field
    assert(to_events(body) =~= to_events(lenf) + (to_events(payload + seq![t0, t1])
        + Seq::<SourceEvent>::empty()));
    lemma_frag_fill(b0, lenf, to_events(payload + seq![t0, t1]) + Seq::<SourceEvent>::empty(), cap);
    let b2 = b0 + lenf;
    assert(b2 =~= lenf);
    assert(b2.len() == 2);

    // the length field reads back the payload length
    lemma_le16_roundtrip(payload.len() as u16);
    assert(spec_u16_le(b2[0], b2[1]) == payload.len());

    // phase: payload
    assert(to_events(payload + seq![t0, t1]) + Seq::<SourceEvent>::empty() =~= to_events(payload)
        + (to_events(seq![t0, t1]) + Seq::<SourceEvent>::empty()));
    lemma_frag_fill(b2, payload, to_events(seq![t0, t1]) + Seq::<SourceEvent>::empty(), cap);
    let b3 = b2 + payload;
    assert(b3.len() == 2 + payload.len());

    // phase: CRC trailer
    assert(to_events(seq![t0, t1]) + Seq::<SourceEvent>::empty() =~= to_events(seq![t0, t1])
        + Seq::<SourceEvent>::empty());
    lemma_frag_fill(b3, seq![t0, t1], Seq::<SourceEvent>::empty(), cap);
    let b4 = b3 + seq![t0, t1];
    assert(b4 =~= lenf + payload + seq![t0, t1] + Seq::<u8>::empty());

    lemma_body_fields(payload, t0, t1, Seq::<u8>::empty());
    assert(b4.subrange(2, 2 + payload.len() as int) == payload);
    if spec_u16_le(t0, t1) == spec_crc16(payload) {
        assert(b4.skip(4 + payload.len() as int) =~= Seq::<u8>::empty());
    } else {
        assert(b4 =~= body);
    }
}

/// After resynchronization, a well-formed frame body that already
/// sits whole in the buffer is validated and consumed without
/// touching the source, and any bytes buffered past it are kept.
proof fn lemma_after_sync_buffered(
    payload: Seq<u8>,
    tail: Seq<u8>,
    events: Seq<SourceEvent>,
    cap: nat,
)
    requires
        payload.len() <= 0xffff,
    ensures
        (receive_after_sync(frame_body(payload) + tail, events, cap) == RecvOutcome::Received {
            payload,
            buf: tail,
            events,
        }),
{
    let crc = spec_crc16(payload);
    let b1 = frame_body(payload) + tail;
    assert(b1 =~= le16(payload.len() as u16) + payload + seq![le16(crc)[0], le16(crc)[1]] + tail);
    lemma_body_fields(payload, le16(crc)[0], le16(crc)[1], tail);
    lemma_le16_roundtrip(crc);
    assert(b1.len() == 4 + payload.len() + tail.len());
    assert(spec_u16_le(b1[0], b1[1]) == payload.len());
    assert(frag_model(b1, events, 0, 2, cap) == FragOutcome::Done { buf: b1, events });
    assert(frag_model(b1, events, 2, payload.len(), cap) == FragOutcome::Done {
        buf: b1,
        events,
    });
    assert(frag_model(b1, events, 2 + payload.len(), 2, cap) == FragOutcome::Done {
        buf: b1,
        events,
    });
    assert(spec_u16_le(b1[2 + payload.len() as int], b1[3 + payload.len() as int]) == crc);
}

/// Waiting for a marker consumes and drops leading non-marker bytes.
proof fn lemma_sync_skips_noise(noise: Seq<u8>, rest: Seq<SourceEvent>, sync: u8)
    requires
        forall|j: int| 0 <= j < noise.len() ==> noise[j] != sync,
    ensures
        (sync_model(to_events(noise) + rest, sync) == crate::framed::sync_bump(
            sync_model(rest, sync),
            noise.len(),
        )),
    decreases noise.len(),
{
    let e = to_events(noise) + rest;
    if noise.len() == 0 {
        assert(e =~= rest);
        assert(crate::framed::sync_bump(sync_model(rest, sync), 0) =~= sync_model(rest, sync));
    } else {
        assert(e[0] == SourceEvent::Byte(noise[0]));
        assert(noise[0] != sync);
        assert(e.skip(1) =~= to_events(noise.skip(1)) + rest);
        assert forall|j: int| 0 <= j < noise.skip(1).len() implies noise.skip(1)[j] != sync by {
            assert(noise.skip(1)[j] == noise[j + 1]);
        }
        lemma_sync_skips_noise(noise.skip(1), rest, sync);
        assert(crate::framed::sync_bump(
            crate::framed::sync_bump(sync_model(rest, sync), (noise.len() - 1) as nat),
            1,
        ) =~= crate::framed::sync_bump(sync_model(rest, sync), noise.len()));
    }
}

/// Sending a payload and receiving its wire image round-trips: for
/// every payload that fits the buffer with room for the frame
/// overhead, receiving from a source that delivers exactly
/// `frame_bytes` yields that payload, consumes the whole frame and
/// leaves buffer and source empty — so the CRC recomputed over the
/// received payload equals the CRC sent.
pub proof fn lemma_send_receive_round_trip(sync: u8, payload: Seq<u8>, cap: nat)
    requires
        payload.len() <= 0xffff,
        payload.len() + 5 <= cap,
    ensures
        (receive_outcome(Seq::<u8>::empty(), to_events(frame_bytes(sync, payload)), sync, cap)
            == RecvOutcome::Received {
            payload,
            buf: Seq::<u8>::empty(),
            events: Seq::<SourceEvent>::empty(),
        }),
{
    lemma_resynchronization(sync, Seq::<u8>::empty(), Seq::<u8>::empty(), payload, cap);
    assert(Seq::<u8>::empty() + frame_bytes(sync, payload) =~= frame_bytes(sync, payload));
}

/// Self-healing resynchronization: with any marker-free leftover in
/// the buffer and any marker-free noise ahead of it on the stream, a
/// receive finds the next well-formed frame and yields its payload.
pub proof fn lemma_resynchronization(
    sync: u8,
    leftover: Seq<u8>,
    noise: Seq<u8>,
    payload: Seq<u8>,
    cap: nat,
)
    requires
        forall|j: int| 0 <= j < leftover.len() ==> leftover[j] != sync,
        forall|j: int| 0 <= j < noise.len() ==> noise[j] != sync,
        payload.len() <= 0xffff,
        payload.len() + 5 <= cap,
    ensures
        (receive_outcome(leftover, to_events(noise + frame_bytes(sync, payload)), sync, cap)
            == RecvOutcome::Received {
            payload,
            buf: Seq::<u8>::empty(),
            events: Seq::<SourceEvent>::empty(),
        }),
{
    // the leftover holds no marker, so the buffer is cleared and the
    // marker wait runs on the source
    lemma_find_first(leftover, sync);
    if find_first(leftover, sync) is Some {
        let i = find_first(leftover, sync)->Some_0;
        assert(leftover[i as int] == sync);
        assert(false);
    }

    let frame = frame_bytes(sync, payload);
    let e0 = to_events(noise + frame);
    assert(e0 =~= to_events(noise) + to_events(frame));

    // the wait drops the noise and finds the frame's marker
    assert(frame[0] == sync);
    assert(to_events(frame)[0] == SourceEvent::Byte(sync));
    assert(sync_model(to_events(frame), sync) == SyncModel::Found { used: 1nat });
    lemma_sync_skips_noise(noise, to_events(frame), sync);
    assert(sync_model(e0, sync) == SyncModel::Found { used: noise.len() + 1 });

    // what remains on the source is exactly the frame body
    let crc = spec_crc16(payload);
    let body = le16(payload.len() as u16) + payload + seq![le16(crc)[0], le16(crc)[1]];
    assert(frame.skip(1) =~= body);
    assert(e0.skip(noise.len() as int + 1) =~= to_events(body));

    lemma_after_sync_streamed(payload, le16(crc)[0], le16(crc)[1], cap);
    lemma_le16_roundtrip(crc);
}

/// A tampered payload whose CRC-16 no longer matches the frame's
/// trailer is rejected as a CRC failure, never accepted: receiving a
/// frame that carries `corrupted` with the trailer computed for
/// `payload` fails as soon as the two CRCs differ, leaving the
/// assembled frame in the buffer for the next sync search.
pub proof fn lemma_corruption_detected(
    sync: u8,
    payload: Seq<u8>,
    corrupted: Seq<u8>,
    cap: nat,
)
    requires
        corrupted.len() == payload.len(),
        spec_crc16(corrupted) != spec_crc16(payload),
        payload.len() <= 0xffff,
        payload.len() + 5 <= cap,
    ensures
        ({
            let crc = spec_crc16(payload);
            let tampered_body = le16(corrupted.len() as u16) + corrupted + le16(crc);
            receive_outcome(Seq::<u8>::empty(), to_events(seq![sync] + tampered_body), sync, cap)
                == RecvOutcome::CrcFail {
                buf: tampered_body,
                events: Seq::<SourceEvent>::empty(),
            }
        }),
{
    let crc = spec_crc16(payload);
    let tampered_body = le16(corrupted.len() as u16) + corrupted + le16(crc);
    let e0 = to_events(seq![sync] + tampered_body);
    assert((seq![sync] + tampered_body)[0] == sync);
    assert(e0[0] == SourceEvent::Byte(sync));
    assert(sync_model(e0, sync) == SyncModel::Found { used: 1nat });
    assert(e0.skip(1) =~= to_events(tampered_body));
    assert(tampered_body =~= le16(corrupted.len() as u16) + corrupted + seq![
        le16(crc)[0],
        le16(crc)[1],
    ]);
    lemma_after_sync_streamed(corrupted, le16(crc)[0], le16(crc)[1], cap);
    lemma_le16_roundtrip(crc);
    assert(spec_u16_le(le16(crc)[0], le16(crc)[1]) != spec_crc16(corrupted));
}

/// Corrupting any single byte of a sent frame's payload before it is
/// received — a bit flip included — is rejected as a CRC failure,
/// never falsely accepted: the CRC-16 of the changed payload always
/// differs from the frame's trailer.
pub proof fn lemma_single_corruption_never_accepted(
    sync: u8,
    payload: Seq<u8>,
    i: int,
    b: u8,
    cap: nat,
)
    requires
        0 <= i < payload.len(),
        b != payload[i],
        payload.len() <= 0xffff,
        payload.len() + 5 <= cap,
    ensures
        ({
            let tampered_body = le16(payload.len() as u16) + payload.update(i, b) + le16(
                spec_crc16(payload),
            );
            receive_outcome(Seq::<u8>::empty(), to_events(seq![sync] + tampered_body), sync, cap)
                == RecvOutcome::CrcFail {
                buf: tampered_body,
                events: Seq::<SourceEvent>::empty(),
            }
        }),
{
    crate::crc16::lemma_crc16_detects_byte_change(payload, i, b);
    lemma_corruption_detected(sync, payload, payload.update(i, b), cap);
}

/// A length field declaring more than the buffer's remaining capacity
/// is rejected as a buffer-capacity failure, with the buffered length
/// field and the source left untouched — usable for the next sync
/// search.
pub proof fn lemma_oversized_length_rejected(
    sync: u8,
    len_lo: u8,
    len_hi: u8,
    rest: Seq<SourceEvent>,
    cap: nat,
)
    requires
        2 <= cap,
        spec_u16_le(len_lo, len_hi) + 2 > cap,
    ensures
        (receive_outcome(
            Seq::<u8>::empty(),
            to_events(seq![sync, len_lo, len_hi]) + rest,
            sync,
            cap,
        ) == RecvOutcome::FramingFail {
            err: AsyncReadReceiverError::BufferCapacity,
            buf: seq![len_lo, len_hi],
            events: rest,
        }),
{
    let e0 = to_events(seq![sync, len_lo, len_hi]) + rest;
    assert(e0[0] == SourceEvent::Byte(sync));
    assert(sync_model(e0, sync) == SyncModel::Found { used: 1nat });
    assert(e0.skip(1) =~= to_events(seq![len_lo, len_hi]) + rest);
    lemma_frag_fill(Seq::<u8>::empty(), seq![len_lo, len_hi], rest, cap);
    let b2 = Seq::<u8>::empty() + seq![len_lo, len_hi];
    assert(b2 =~= seq![len_lo, len_hi]);
    assert(spec_u16_le(b2[0], b2[1]) == spec_u16_le(len_lo, len_hi));
}

/// A first-byte timeout reports zero bytes read: when the very first
/// wait of an exact read ends with the timer firing, the read fails
/// as a timeout with no progress.
pub proof fn lemma_first_byte_timeout(e: Seq<SourceEvent>, need: nat)
    requires
        need > 0,
        e.len() > 0,
        e[0] == SourceEvent::TimerFired,
    ensures
        (read_model(e, need) == ReadModel::TimedOut { bytes: Seq::<u8>::empty(), used: 1nat }),
{
}

/// A between-bytes timeout reports the progress made: when the first
/// byte arrives and the next wait ends with the timer firing, the
/// read fails as a timeout with exactly one byte obtained.
pub proof fn lemma_between_bytes_timeout(b: u8, e: Seq<SourceEvent>, need: nat)
    requires
        need >= 2,
        e.len() >= 2,
        e[0] == SourceEvent::Byte(b),
        e[1] == SourceEvent::TimerFired,
    ensures
        (read_model(e, need) == ReadModel::TimedOut { bytes: seq![b], used: 2nat }),
{
    assert(e.skip(1)[0] == SourceEvent::TimerFired);
    assert(read_model(e.skip(1), (need - 1) as nat) == ReadModel::TimedOut {
        bytes: Seq::<u8>::empty(),
        used: 1nat,
    });
    assert(seq![b] + Seq::<u8>::empty() =~= seq![b]);
}

/// Removing a consumed frame preserves read-ahead: a frame whose
/// marker and complete body already sit at the front of the buffer is
/// validated and consumed without reading from the source, and every
/// byte buffered past it stays for the next cycle.
pub proof fn lemma_read_ahead_preserved(
    sync: u8,
    payload: Seq<u8>,
    tail: Seq<u8>,
    events: Seq<SourceEvent>,
    cap: nat,
)
    requires
        payload.len() <= 0xffff,
    ensures
        (receive_outcome(seq![sync] + frame_body(payload) + tail, events, sync, cap)
            == RecvOutcome::Received { payload, buf: tail, events }),
{
    let b0 = seq![sync] + frame_body(payload) + tail;
    assert(b0[0] == sync);
    lemma_find_first_converse(b0, sync, 0);
    assert(b0.skip(1) =~= frame_body(payload) + tail);
    lemma_after_sync_buffered(payload, tail, events, cap);
}

/// A zero-length payload yields a frame of exactly five bytes on the
/// wire: the marker, a zero length field, no payload, and a CRC-16
/// computed over zero bytes.
pub proof fn lemma_empty_payload_frame(sync: u8)
    ensures
        frame_bytes(sync, Seq::<u8>::empty()).len() == 5,
        frame_bytes(sync, Seq::<u8>::empty())[0] == sync,
        frame_bytes(sync, Seq::<u8>::empty())[1] == 0,
        frame_bytes(sync, Seq::<u8>::empty())[2] == 0,
        (spec_u16_le(
            frame_bytes(sync, Seq::<u8>::empty())[3],
            frame_bytes(sync, Seq::<u8>::empty())[4],
        ) == spec_crc16(Seq::<u8>::empty())),
{
    let f = frame_bytes(sync, Seq::<u8>::empty());
    assert(Seq::<u8>::empty().len() as u16 == 0);
    assert(le16(0)[0] == 0 && le16(0)[1] == 0) by (bit_vector);
    lemma_le16_roundtrip(spec_crc16(Seq::<u8>::empty()));
    assert(f[3] == le16(spec_crc16(Seq::<u8>::empty()))[0]);
    assert(f[4] == le16(spec_crc16(Seq::<u8>::empty()))[1]);
}

} // verus!
