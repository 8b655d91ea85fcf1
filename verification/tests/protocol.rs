use framelink::buffer::RollingBuffer;
use framelink::crc16::crc16;
use framelink::framed::{AsyncReadReceiver, AsyncReadReceiverError, WriteSender};
use framelink::proto::{
    receive_host_message, send_target_message, HostMessage, ReceiveError, TargetMessage,
};
use framelink::source::{ScriptedSource, SourceEvent};
use framelink::SYNC_BYTE;

fn byte_events(bytes: &[u8]) -> Vec<SourceEvent> {
    bytes.iter().map(|&b| SourceEvent::Byte(b)).collect()
}

fn encode_frame(payload: &[u8]) -> Vec<u8> {
    let mut ftx = WriteSender::new(Vec::new(), SYNC_BYTE);
    let msg = TargetMessage { payload: payload.to_vec() };
    send_target_message(&mut ftx, &msg);
    ftx.sent_bytes().to_vec()
}

fn receiver_for(cap: usize, events: Vec<SourceEvent>) -> AsyncReadReceiver {
    AsyncReadReceiver::new(RollingBuffer::new(cap), ScriptedSource::new(events), SYNC_BYTE, 100, 20)
}

#[test]
fn send_then_receive_round_trips() {
    let payload: &[u8] = &[0x10, 0x20, 0x30, 0x40];
    let wire = encode_frame(payload);
    let mut frx = receiver_for(64, byte_events(&wire));
    let msg = receive_host_message(&mut frx).expect("frame should be accepted");
    assert_eq!(msg.payload, payload);
    // the frame is fully consumed
    assert_eq!(frx.buf(), &[] as &[u8]);
}

#[test]
fn long_payload_round_trips() {
    // exercises the high byte of the little-endian length field
    let payload: Vec<u8> = (0..300u32).map(|i| (i % 251) as u8).collect();
    let wire = encode_frame(&payload);
    assert_eq!(wire[1], (300 % 256) as u8);
    assert_eq!(wire[2], (300 / 256) as u8);
    let mut frx = receiver_for(512, byte_events(&wire));
    let msg = receive_host_message(&mut frx).expect("frame should be accepted");
    assert_eq!(msg.payload, payload);
}

#[test]
fn zero_length_payload_is_five_bytes_on_the_wire() {
    let wire = encode_frame(&[]);
    assert_eq!(wire.len(), 5);
    assert_eq!(wire[0], SYNC_BYTE);
    assert_eq!(wire[1], 0);
    assert_eq!(wire[2], 0);
    let crc = crc16(&[]);
    assert_eq!(wire[3], (crc & 0xff) as u8);
    assert_eq!(wire[4], (crc >> 8) as u8);
    // and it is accepted on the receive side
    let mut frx = receiver_for(16, byte_events(&wire));
    let msg = receive_host_message(&mut frx).expect("empty frame should be accepted");
    assert_eq!(msg.payload, &[] as &[u8]);
}

#[test]
fn any_single_bit_flip_in_payload_is_rejected() {
    let payload: &[u8] = &[0xab, 0xcd, 0x01];
    let wire = encode_frame(payload);
    for i in 0..payload.len() {
        for bit in 0..8 {
            let mut tampered = wire.clone();
            // payload bytes start after the marker and the length field
            tampered[3 + i] ^= 1u8 << bit;
            let mut frx = receiver_for(64, byte_events(&tampered));
            let r = receive_host_message(&mut frx);
            assert_eq!(r.unwrap_err(), ReceiveError::Crc);
        }
    }
}

#[test]
fn crc_failure_leaves_buffer_untouched() {
    let payload: &[u8] = &[1, 2];
    let mut wire = encode_frame(payload);
    let n = wire.len();
    wire[n - 1] ^= 0xff;
    let mut frx = receiver_for(64, byte_events(&wire));
    assert_eq!(receive_host_message(&mut frx).unwrap_err(), ReceiveError::Crc);
    // the rejected frame's body is still buffered for the next sync search
    assert_eq!(frx.buf(), &wire[1..]);
}

#[test]
fn oversized_length_field_is_rejected_and_recoverable() {
    // declared length 0x1234 cannot fit a capacity-16 buffer
    let mut events = byte_events(&[SYNC_BYTE, 0x34, 0x12]);
    // a well-formed frame follows on the same stream
    let wire = encode_frame(&[0x55]);
    events.extend(byte_events(&wire));
    let mut frx = receiver_for(16, events);
    let r = receive_host_message(&mut frx);
    assert_eq!(
        r.unwrap_err(),
        ReceiveError::Framing(AsyncReadReceiverError::BufferCapacity)
    );
    // the length field stays buffered, usable for the next sync search
    assert_eq!(frx.buf(), &[0x34, 0x12]);
    // the next cycle resynchronizes onto the following frame
    let msg = receive_host_message(&mut frx).expect("next frame should be accepted");
    assert_eq!(msg.payload, &[0x55]);
}

#[test]
fn timeout_before_any_byte_is_a_framing_timeout() {
    let mut frx = receiver_for(16, vec![SourceEvent::Byte(SYNC_BYTE), SourceEvent::TimerFired]);
    let r = receive_host_message(&mut frx);
    assert_eq!(r.unwrap_err(), ReceiveError::Framing(AsyncReadReceiverError::Timeout));
}

#[test]
fn source_failure_mid_frame_is_a_framing_error() {
    let mut frx = receiver_for(
        16,
        vec![SourceEvent::Byte(SYNC_BYTE), SourceEvent::Byte(2), SourceEvent::Failed],
    );
    let r = receive_host_message(&mut frx);
    assert_eq!(r.unwrap_err(), ReceiveError::Framing(AsyncReadReceiverError::Other));
}

#[test]
fn interrupted_marker_wait_is_a_sync_error() {
    let mut frx = receiver_for(16, vec![]);
    assert_eq!(receive_host_message(&mut frx).unwrap_err(), ReceiveError::Sync);
    let mut frx = receiver_for(16, vec![SourceEvent::Byte(0x11), SourceEvent::Failed]);
    assert_eq!(receive_host_message(&mut frx).unwrap_err(), ReceiveError::Sync);
}

#[test]
fn resynchronizes_after_garbage_and_truncated_frame() {
    // garbage holding a truncated earlier frame, then a well-formed
    // frame: [garbage..., SYNC, 0x02,0x00, 0xAB,0xCD, crc16 LE]
    let crc = crc16(&[0xab, 0xcd]);
    let mut stream: Vec<u8> = vec![0x00, 0x03, 0x99, 0x7e];
    stream.extend_from_slice(&[
        SYNC_BYTE,
        0x02,
        0x00,
        0xab,
        0xcd,
        (crc & 0xff) as u8,
        (crc >> 8) as u8,
    ]);
    let mut frx = receiver_for(64, byte_events(&stream));
    let msg = receive_host_message(&mut frx).expect("frame after garbage should be accepted");
    assert_eq!(msg.payload, &[0xab, 0xcd]);
}

#[test]
fn timeout_then_next_frame_recovers() {
    // a frame whose payload never arrives, then a complete frame
    let mut events = byte_events(&[SYNC_BYTE, 0x04, 0x00, 0x01]);
    events.push(SourceEvent::TimerFired);
    let wire = encode_frame(&[9, 8, 7]);
    events.extend(byte_events(&wire));
    let mut frx = receiver_for(64, events);
    let r = receive_host_message(&mut frx);
    assert_eq!(r.unwrap_err(), ReceiveError::Framing(AsyncReadReceiverError::Timeout));
    let msg = receive_host_message(&mut frx).expect("next frame should be accepted");
    assert_eq!(msg.payload, &[9, 8, 7]);
}

#[test]
fn remove_frame_preserves_read_ahead() {
    // two complete frames already buffered: the first receive consumes
    // frame one and keeps the read-ahead; the second receive is served
    // from the buffer without touching the source
    let wire1 = encode_frame(&[0x01, 0x02]);
    let wire2 = encode_frame(&[0x03]);
    let mut buf = RollingBuffer::new(64);
    buf.extend_from_slice(&wire1);
    buf.extend_from_slice(&wire2);
    let mut frx = AsyncReadReceiver::new(
        buf,
        ScriptedSource::new(vec![]),
        SYNC_BYTE,
        100,
        20,
    );
    let first = receive_host_message(&mut frx).expect("first frame should be accepted");
    assert_eq!(first.payload, &[0x01, 0x02]);
    assert_eq!(frx.buf(), &wire2[..]);
    let second = receive_host_message(&mut frx).expect("second frame should be accepted");
    assert_eq!(second.payload, &[0x03]);
    assert_eq!(frx.buf(), &[] as &[u8]);
}

#[test]
fn marker_inside_leftover_buffer_is_honoured() {
    // a failed cycle left noise holding a marker and a complete frame
    let wire = encode_frame(&[0x0a, 0x0b]);
    let mut buf = RollingBuffer::new(64);
    buf.extend_from_slice(&[0x13, 0x37]);
    buf.extend_from_slice(&wire);
    let mut frx =
        AsyncReadReceiver::new(buf, ScriptedSource::new(vec![]), SYNC_BYTE, 100, 20);
    let msg = receive_host_message(&mut frx).expect("buffered frame should be accepted");
    assert_eq!(msg.payload, &[0x0a, 0x0b]);
}

#[test]
fn decode_copies_validated_bytes() {
    let msg = HostMessage::decode(&[4, 5, 6]).expect("raw codec never fails");
    assert_eq!(msg.payload, &[4, 5, 6]);
}

#[test]
fn sender_emits_marker_and_fragments_verbatim() {
    let mut ftx = WriteSender::new(Vec::new(), SYNC_BYTE);
    ftx.send_sync();
    ftx.send_frame_fragment(&[1, 2, 3]);
    assert_eq!(ftx.sent_bytes(), &[SYNC_BYTE, 1, 2, 3]);
}
