//! The message protocol: the wire format `SYNC | LENGTH (2 bytes LE)
//! | PAYLOAD | CRC16 (2 bytes LE)` where the CRC covers the payload
//! only, and the two top-level operations that send and receive one
//! message over the frame transport.

use vstd::prelude::*;

use crate::buffer::find_first;
use crate::crc16::{crc16, spec_crc16, Stream};
use crate::framed::{
    frag_model, sync_model, AsyncReadReceiver, AsyncReadReceiverError, FragOutcome, SyncModel,
    WriteSender,
};
use crate::reader::{read_model, ReadModel};
use crate::source::SourceEvent;
use crate::{MESSAGE_CRC_SIZE, MESSAGE_LENGTH_SIZE};

verus! {

/// The two little-endian bytes of a 16-bit value.
pub open spec fn le16(v: u16) -> Seq<u8> {
    seq![(v & 0xff) as u8, (v >> 8) as u8]
}

/// The 16-bit value read from two little-endian bytes.
pub open spec fn spec_u16_le(b0: u8, b1: u8) -> int {
    b0 + 256 * b1
}

/// Reading back the two little-endian bytes of a value gives the
/// value.
pub proof fn lemma_le16_roundtrip(v: u16)
    ensures
        spec_u16_le(le16(v)[0], le16(v)[1]) == v,
{
    assert(((v & 0xff) as u8) as u16 == (v & 0xff)) by (bit_vector);
    assert(((v >> 8) as u8) as u16 == (v >> 8)) by (bit_vector);
    assert((v & 0xff) + 256 * (v >> 8) == v) by (bit_vector);
}

/// The complete wire image of a frame carrying `payload`.
pub open spec fn frame_bytes(sync: u8, payload: Seq<u8>) -> Seq<u8> {
    seq![sync] + le16(payload.len() as u16) + payload + le16(spec_crc16(payload))
}

/// A message bound for the peer: an opaque, already-schema-encoded
/// byte payload with a computable encoded size and a streaming
/// encoder.
#[derive(Debug)]
pub struct TargetMessage {
    /// The encoded form of the message.
    pub payload: Vec<u8>,
}

/// A message received from the peer: the integrity-confirmed byte
/// payload of one frame.
#[derive(Debug)]
pub struct HostMessage {
    /// The encoded form of the message.
    pub payload: Vec<u8>,
}

/// Schema-level failure of decoding an integrity-confirmed payload.
/// The raw byte codec used here never produces it.
#[derive(PartialEq, Eq, Structural, Debug)]
pub struct DecodeError {}

impl TargetMessage {
    /// The encoded size of the message.
    pub fn compute_size(&self) -> (n: usize)
        ensures
            n == self.payload@.len(),
    {
        self.payload.len()
    }

    /// Streams the encoded message through the sender while feeding
    /// every emitted chunk into the open CRC computation.
    pub fn encode(&self, ftx: &mut WriteSender, crc: &mut Stream)
        requires
            old(crc).inv(),
        ensures
            final(ftx).sent() == old(ftx).sent() + self.payload@,
            final(ftx).sync_spec() == old(ftx).sync_spec(),
            final(crc).inv(),
            final(crc).fed() == old(crc).fed() + self.payload@,
    {
        pb_write(ftx, crc, self.payload.as_slice());
    }
}

impl HostMessage {
    /// Decodes a message from a bounded, integrity-confirmed byte
    /// slice.
    pub fn decode(data: &[u8]) -> (r: Result<HostMessage, DecodeError>)
        ensures
            r matches Ok(m) && m.payload@ == data@,
    {
        let mut payload: Vec<u8> = Vec::new();
        payload.extend_from_slice(data);
        Ok(HostMessage { payload })
    }
}

/// Forwards one encoded chunk both to the sender (onto the wire) and
/// into the open CRC computation (in memory).
pub fn pb_write(ftx: &mut WriteSender, crc: &mut Stream, data: &[u8])
    requires
        old(crc).inv(),
    ensures
        final(ftx).sent() == old(ftx).sent() + data@,
        final(ftx).sync_spec() == old(ftx).sync_spec(),
        final(crc).inv(),
        final(crc).fed() == old(crc).fed() + data@,
{
    ftx.send_frame_fragment(data);
    crc.feed_bytes(data);
}

/// The two little-endian bytes of a 16-bit value, as a byte vector.
fn u16_le_bytes(v: u16) -> (r: Vec<u8>)
    ensures
        r@ == le16(v),
{
    let mut r: Vec<u8> = Vec::new();
    r.push((v & 0xff) as u8);
    r.push((v >> 8) as u8);
    proof {
        assert(r@ =~= le16(v));
    }
    r
}

/// Sends one message as a frame: the sync marker, the encoded size as
/// a two-byte little-endian length, the streamed encoding, and the
/// CRC-16 of the payload as a two-byte little-endian trailer.
pub fn send_target_message(ftx: &mut WriteSender, msg: &TargetMessage)
    requires
        msg.payload@.len() <= 0xffff,
    ensures
        final(ftx).sent() == old(ftx).sent() + frame_bytes(old(ftx).sync_spec(), msg.payload@),
        final(ftx).sync_spec() == old(ftx).sync_spec(),
{
    ftx.send_sync();

    let encoded_size = u16_le_bytes(msg.compute_size() as u16);
    ftx.send_frame_fragment(encoded_size.as_slice());

    let mut crc_stream = Stream::new();
    msg.encode(ftx, &mut crc_stream);

    let crc_result = u16_le_bytes(crc_stream.result());
    ftx.send_frame_fragment(crc_result.as_slice());
    proof {
        assert(crc_stream.fed() =~= msg.payload@);
        assert(ftx.sent() =~= old(ftx).sent() + frame_bytes(
            old(ftx).sync_spec(),
            msg.payload@,
        ));
    }
}

/// Failure of receiving one message.
#[derive(PartialEq, Eq, Structural, Debug)]
pub enum ReceiveError {
    /// No sync marker was found: the marker wait was interrupted
    /// before one arrived.
    Sync,
    /// The CRC-16 trailer does not match the CRC-16 of the buffered
    /// payload.
    Crc,
    /// Fragment reception failed.
    Framing(AsyncReadReceiverError),
    /// Schema-level failure on integrity-confirmed bytes.
    Decode,
}

/// What one receive operation does, as a function of the buffer
/// content, the source's wait outcomes, the sync marker and the
/// buffer capacity.
#[verifier::ext_equal]
pub ghost enum RecvOutcome {
    /// A frame arrived whole and its CRC matched: its payload is
    /// handed out, and the frame is removed from the buffer, keeping
    /// any bytes already buffered past it.
    Received { payload: Seq<u8>, buf: Seq<u8>, events: Seq<SourceEvent> },
    /// The marker wait was interrupted.
    SyncFail { events: Seq<SourceEvent> },
    /// A fragment could not be completed.
    FramingFail { err: AsyncReadReceiverError, buf: Seq<u8>, events: Seq<SourceEvent> },
    /// The CRC-16 trailer did not match; the buffer keeps the
    /// rejected frame untouched.
    CrcFail { buf: Seq<u8>, events: Seq<SourceEvent> },
}

/// The outcome of receiving one message: resynchronize, pull in the
/// length field, the declared payload and the CRC trailer, then check
/// the trailer against the CRC-16 of the buffered payload and remove
/// the consumed frame.
pub open spec fn receive_outcome(
    buf0: Seq<u8>,
    e0: Seq<SourceEvent>,
    sync: u8,
    cap: nat,
) -> RecvOutcome {
    match find_first(buf0, sync) {
        Some(i) => receive_after_sync(buf0.skip(i as int + 1), e0, cap),
        None => match sync_model(e0, sync) {
            SyncModel::Found { used } => receive_after_sync(
                Seq::<u8>::empty(),
                e0.skip(used as int),
                cap,
            ),
            SyncModel::Lost { used } => RecvOutcome::SyncFail { events: e0.skip(used as int) },
        },
    }
}

/// The outcome of the phases of one receive operation that follow
/// resynchronization, starting from the post-sync buffer content `b1`
/// and wait outcomes `e1`.
pub open spec fn receive_after_sync(b1: Seq<u8>, e1: Seq<SourceEvent>, cap: nat) -> RecvOutcome {
    match frag_model(b1, e1, 0, MESSAGE_LENGTH_SIZE as nat, cap) {
        FragOutcome::Fail { err, buf, events } => RecvOutcome::FramingFail {
            err,
            buf,
            events,
        },
        FragOutcome::Done { buf: b2, events: e2 } => {
            let mlen = spec_u16_le(b2[0], b2[1]);
            match frag_model(b2, e2, MESSAGE_LENGTH_SIZE as nat, mlen as nat, cap) {
                FragOutcome::Fail { err, buf, events } => RecvOutcome::FramingFail {
                    err,
                    buf,
                    events,
                },
                FragOutcome::Done { buf: b3, events: e3 } => {
                    match frag_model(
                        b3,
                        e3,
                        (MESSAGE_LENGTH_SIZE + mlen) as nat,
                        MESSAGE_CRC_SIZE as nat,
                        cap,
                    ) {
                        FragOutcome::Fail { err, buf, events } => RecvOutcome::FramingFail {
                            err,
                            buf,
                            events,
                        },
                        FragOutcome::Done { buf: b4, events: e4 } => {
                            let payload = b4.subrange(
                                MESSAGE_LENGTH_SIZE as int,
                                MESSAGE_LENGTH_SIZE + mlen,
                            );
                            let expected = spec_u16_le(
                                b4[MESSAGE_LENGTH_SIZE + mlen],
                                b4[MESSAGE_LENGTH_SIZE + mlen + 1],
                            );
                            if spec_crc16(payload) != expected {
                                RecvOutcome::CrcFail { buf: b4, events: e4 }
                            } else {
                                RecvOutcome::Received {
                                    payload,
                                    buf: b4.skip(
                                        MESSAGE_LENGTH_SIZE + mlen + MESSAGE_CRC_SIZE,
                                    ),
                                    events: e4,
                                }
                            }
                        },
                    }
                },
            }
        },
    }
}

/// A completed fragment request leaves the buffer at least `pos +
/// len` long, extended only at its tail and within capacity.
pub proof fn lemma_frag_model_done(
    buf: Seq<u8>,
    events: Seq<SourceEvent>,
    pos: nat,
    len: nat,
    cap: nat,
)
    requires
        pos <= buf.len(),
        buf.len() <= cap,
    ensures
        match frag_model(buf, events, pos, len, cap) {
            FragOutcome::Done { buf: b2, events: e2 } => b2.len() >= pos + len && b2.len() <= cap
                && b2.len() >= buf.len() && b2.subrange(0, buf.len() as int) == buf,
            FragOutcome::Fail { err, buf: b2, events: e2 } => b2.len() <= cap && b2.len()
                >= buf.len() && b2.subrange(0, buf.len() as int) == buf,
        },
{
    let avail = buf.len() - pos;
    if len <= avail {
        assert(buf.subrange(0, buf.len() as int) =~= buf);
    } else {
        let missing = (len - avail) as nat;
        if missing + buf.len() > cap {
            assert(buf.subrange(0, buf.len() as int) =~= buf);
        } else {
            crate::reader::lemma_read_model_bounds(events, missing);
            match read_model(events, missing) {
                ReadModel::Filled { bytes, used } => {
                    assert((buf + bytes).subrange(0, buf.len() as int) =~= buf);
                },
                ReadModel::TimedOut { bytes, used } => {
                    assert((buf + bytes).subrange(0, buf.len() as int) =~= buf);
                },
                ReadModel::Failed { bytes, used } => {
                    assert((buf + bytes).subrange(0, buf.len() as int) =~= buf);
                },
            }
        }
    }
}

/// Relies on byteorder's `LittleEndian::read_u16`: reads an unsigned
/// 16-bit integer, low byte first; panics when the slice is shorter
/// than two bytes.
#[verifier::external_body]
fn read_u16_le(buf: &[u8]) -> (r: u16)
    requires
        buf@.len() >= 2,
    ensures
        r == spec_u16_le(buf@[0], buf@[1]),
{
    <byteorder::LittleEndian as byteorder::ByteOrder>::read_u16(buf)
}

/// Receives one message: resynchronizes, pulls in the length field,
/// the declared payload and the CRC trailer, validates the trailer
/// against the CRC-16 recomputed over the buffered payload, decodes
/// the validated payload, and removes the consumed frame — keeping
/// any bytes already buffered past it for the next cycle. On a CRC
/// mismatch the buffer is left untouched for the next sync search.
pub fn receive_host_message(frx: &mut AsyncReadReceiver) -> (r: Result<
    HostMessage,
    ReceiveError,
>)
    requires
        old(frx).inv(),
    ensures
        final(frx).inv(),
        final(frx).config_unchanged(old(frx)),
        match receive_outcome(
            old(frx).buf_view(),
            old(frx).events(),
            old(frx).sync_spec(),
            old(frx).cap(),
        ) {
            RecvOutcome::Received { payload, buf, events } => r matches Ok(m) && m.payload@
                == payload && final(frx).buf_view() == buf && final(frx).events() == events,
            RecvOutcome::SyncFail { events } => r matches Err(ReceiveError::Sync)
                && final(frx).buf_view() == Seq::<u8>::empty() && final(frx).events() == events,
            RecvOutcome::FramingFail { err, buf, events } => r matches Err(ReceiveError::Framing(e))
                && e == err && final(frx).buf_view() == buf && final(frx).events() == events,
            RecvOutcome::CrcFail { buf, events } => r matches Err(ReceiveError::Crc)
                && final(frx).buf_view() == buf && final(frx).events() == events,
        },
{
    let ghost buf0 = old(frx).buf_view();
    let ghost e0 = old(frx).events();
    let ghost sync = old(frx).sync_spec();
    let ghost cap = old(frx).cap();

    match frx.receive_sync() {
        Ok(()) => {},
        Err(_) => {
            return Err(ReceiveError::Sync);
        },
    }
    let ghost b1 = frx.buf_view();
    let ghost e1 = frx.events();

    // read the length of the message
    proof {
        frx.lemma_inv_buf();
    }
    match frx.receive_frame_fragment(0, MESSAGE_LENGTH_SIZE) {
        Ok(()) => {},
        Err(e) => {
            return Err(ReceiveError::Framing(e));
        },
    }
    let ghost b2 = frx.buf_view();
    let ghost e2 = frx.events();
    proof {
        lemma_frag_model_done(b1, e1, 0, MESSAGE_LENGTH_SIZE as nat, cap);
    }

    // get the message length from the buffer
    let message_len = {
        let b = frx.buf();
        read_u16_le(&b[0..MESSAGE_LENGTH_SIZE]) as usize
    };

    // read the message
    let message_pos = MESSAGE_LENGTH_SIZE;
    match frx.receive_frame_fragment(message_pos, message_len) {
        Ok(()) => {},
        Err(e) => {
            return Err(ReceiveError::Framing(e));
        },
    }
    let ghost b3 = frx.buf_view();
    let ghost e3 = frx.events();
    proof {
        lemma_frag_model_done(b2, e2, MESSAGE_LENGTH_SIZE as nat, message_len as nat, cap);
    }

    // read the CRC-16 of the message
    let crc_pos = message_pos + message_len;
    match frx.receive_frame_fragment(crc_pos, MESSAGE_CRC_SIZE) {
        Ok(()) => {},
        Err(e) => {
            return Err(ReceiveError::Framing(e));
        },
    }
    let ghost b4 = frx.buf_view();
    let ghost e4 = frx.events();
    proof {
        lemma_frag_model_done(b3, e3, crc_pos as nat, MESSAGE_CRC_SIZE as nat, cap);
    }

    // get the expected CRC-16 from the buffer, and compute the actual
    // CRC-16 over the buffered payload slice
    let expected_crc = {
        let b = frx.buf();
        read_u16_le(&b[crc_pos..crc_pos + MESSAGE_CRC_SIZE])
    };
    let computed_crc = {
        let b = frx.buf();
        crc16(&b[message_pos..crc_pos])
    };
    if computed_crc != expected_crc {
        return Err(ReceiveError::Crc);
    }

    // the buffer has been confirmed to contain a valid message frame,
    // so any failure beyond this point can only drop the message: the
    // frame is removed before returning either way
    let decoded = {
        let b = frx.buf();
        HostMessage::decode(&b[message_pos..crc_pos])
    };
    frx.remove_frame(crc_pos + MESSAGE_CRC_SIZE);
    match decoded {
        Ok(msg) => Ok(msg),
        Err(_) => Err(ReceiveError::Decode),
    }
}

} // verus!
