use framelink::buffer::RollingBuffer;
use framelink::crc16::{crc16, Stream};
use framelink::reader::{read_exact_with_timeouts, wait_timeout, ReadError};
use framelink::source::{ScriptedSource, SourceEvent};

fn byte_events(bytes: &[u8]) -> Vec<SourceEvent> {
    bytes.iter().map(|&b| SourceEvent::Byte(b)).collect()
}

#[test]
fn crc16_stream_matches_one_shot() {
    let data: Vec<u8> = vec![0x01, 0x02, 0x03, 0xab, 0xcd, 0xef];
    let mut stream = Stream::new();
    stream.feed_bytes(&data[..2]);
    stream.feed_bytes(&data[2..5]);
    stream.feed_bytes(&data[5..]);
    assert_eq!(stream.result(), crc16(&data));
}

#[test]
fn crc16_known_values() {
    // CRC-16 with polynomial 0xA001 (reflected) and init 0xFFFF
    assert_eq!(crc16(&[]), 0xffff);
    assert_eq!(crc16(b"123456789"), 0x4b37);
}

#[test]
fn crc16_changes_on_bit_flip() {
    let data: Vec<u8> = vec![0xab, 0xcd];
    let reference = crc16(&data);
    for i in 0..data.len() {
        for bit in 0..8 {
            let mut tampered = data.clone();
            tampered[i] ^= 1 << bit;
            assert_ne!(crc16(&tampered), reference);
        }
    }
}

#[test]
fn read_exact_fills_from_bytes() {
    let mut rx = ScriptedSource::new(byte_events(&[1, 2, 3, 4]));
    let mut buf = RollingBuffer::new(8);
    assert_eq!(read_exact_with_timeouts(&mut rx, &mut buf, 3), Ok(()));
    assert_eq!(buf.as_slice(), &[1, 2, 3]);
    // the fourth byte is still on the source for a later read
    assert_eq!(read_exact_with_timeouts(&mut rx, &mut buf, 1), Ok(()));
    assert_eq!(buf.as_slice(), &[1, 2, 3, 4]);
}

#[test]
fn read_exact_first_byte_timeout_reports_zero() {
    let mut rx = ScriptedSource::new(vec![SourceEvent::TimerFired]);
    let mut buf = RollingBuffer::new(8);
    let r = read_exact_with_timeouts(&mut rx, &mut buf, 2);
    assert_eq!(r, Err(ReadError::Timeout { bytes_read: 0 }));
    assert_eq!(buf.as_slice(), &[] as &[u8]);
}

#[test]
fn read_exact_between_bytes_timeout_reports_one() {
    let mut rx = ScriptedSource::new(vec![SourceEvent::Byte(0x42), SourceEvent::TimerFired]);
    let mut buf = RollingBuffer::new(8);
    let r = read_exact_with_timeouts(&mut rx, &mut buf, 2);
    assert_eq!(r, Err(ReadError::Timeout { bytes_read: 1 }));
    // the partial progress stays in the buffer
    assert_eq!(buf.as_slice(), &[0x42]);
}

#[test]
fn read_exact_source_failure_keeps_progress() {
    let mut rx = ScriptedSource::new(vec![SourceEvent::Byte(9), SourceEvent::Failed]);
    let mut buf = RollingBuffer::new(8);
    let r = read_exact_with_timeouts(&mut rx, &mut buf, 3);
    assert_eq!(r, Err(ReadError::Other { bytes_read: 1 }));
    assert_eq!(buf.as_slice(), &[9]);
}

#[test]
fn read_exact_exhausted_script_fails() {
    let mut rx = ScriptedSource::new(byte_events(&[7]));
    let mut buf = RollingBuffer::new(8);
    let r = read_exact_with_timeouts(&mut rx, &mut buf, 2);
    assert_eq!(r, Err(ReadError::Other { bytes_read: 1 }));
}

#[test]
fn wait_timeout_picks_first_then_between() {
    assert_eq!(wait_timeout(0, 100, 20), 100);
    assert_eq!(wait_timeout(1, 100, 20), 20);
    assert_eq!(wait_timeout(7, 100, 20), 20);
}

#[test]
fn rolling_buffer_remove_leading_keeps_tail() {
    let mut buf = RollingBuffer::new(8);
    buf.extend_from_slice(&[1, 2, 3, 4, 5]);
    buf.remove_leading(2);
    assert_eq!(buf.as_slice(), &[3, 4, 5]);
    assert_eq!(buf.capacity(), 8);
    buf.clear();
    assert_eq!(buf.len(), 0);
}

#[test]
fn rolling_buffer_find_byte_first_occurrence() {
    let mut buf = RollingBuffer::new(8);
    buf.extend_from_slice(&[5, 6, 7, 6]);
    assert_eq!(buf.find_byte(6), Some(1));
    assert_eq!(buf.find_byte(9), None);
}
