use puresearch::error::StorageError;
use puresearch::framing::{complete_prefix_len, encode_frame, parse_records, PREFIX_LEN};

fn log_of(payloads: &[&[u8]]) -> Vec<u8> {
    let mut log = Vec::new();
    for payload in payloads {
        log.extend_from_slice(&encode_frame(payload).unwrap());
    }
    log
}

#[test]
fn frame_is_length_prefix_then_payload() {
    assert_eq!(PREFIX_LEN, 4);
    assert_eq!(encode_frame(b"abc"), Ok(vec![3, 0, 0, 0, 97, 98, 99]));
    assert_eq!(encode_frame(b""), Ok(vec![0, 0, 0, 0]));
}

#[test]
fn frame_length_is_little_endian() {
    let payload = vec![7u8; 0x0102];
    let frame = encode_frame(&payload).unwrap();
    assert_eq!(&frame[..4], &[0x02, 0x01, 0x00, 0x00]);
    assert_eq!(frame.len(), 4 + 0x0102);
    assert_eq!(&frame[4..], &payload[..]);
}

#[test]
fn empty_log_has_no_records() {
    let (payloads, end) = parse_records(&[]);
    assert!(payloads.is_empty());
    assert_eq!(end, 0);
    assert_eq!(complete_prefix_len(&[]), 0);
}

#[test]
fn records_are_read_in_the_order_written() {
    let log = log_of(&[b"first", b"", b"third!"]);
    let (payloads, end) = parse_records(&log);
    assert_eq!(payloads, vec![b"first".to_vec(), b"".to_vec(), b"third!".to_vec()]);
    assert_eq!(end, log.len());
    assert_eq!(complete_prefix_len(&log), log.len());
}

#[test]
fn short_prefix_at_the_end_is_a_clean_end() {
    let mut log = log_of(&[b"one", b"two"]);
    let whole = log.len();
    log.extend_from_slice(&[9, 0, 0]);
    let (payloads, end) = parse_records(&log);
    assert_eq!(payloads, vec![b"one".to_vec(), b"two".to_vec()]);
    assert_eq!(end, whole);
    assert_eq!(complete_prefix_len(&log), whole);
}

#[test]
fn torn_payload_at_the_end_is_left_out() {
    let mut log = log_of(&[b"one"]);
    let whole = log.len();
    let torn = encode_frame(b"never finished").unwrap();
    for kept in 0..torn.len() {
        let mut image = log.clone();
        image.extend_from_slice(&torn[..kept]);
        let (payloads, end) = parse_records(&image);
        assert_eq!(payloads, vec![b"one".to_vec()]);
        assert_eq!(end, whole);
    }
    log.extend_from_slice(&torn);
    let (payloads, end) = parse_records(&log);
    assert_eq!(payloads, vec![b"one".to_vec(), b"never finished".to_vec()]);
    assert_eq!(end, log.len());
}

#[test]
fn reading_stops_at_the_first_torn_record() {
    // A record that announces more bytes than follow hides what comes after.
    let image = vec![5, 0, 0, 0, 1, 2, 0, 0, 0, 0];
    let (payloads, end) = parse_records(&image);
    assert_eq!(payloads, vec![vec![1u8, 2, 0, 0, 0]]);
    assert_eq!(end, 9);
    let image = vec![200, 0, 0, 0, 1, 2, 0, 0, 0, 0];
    let (payloads, end) = parse_records(&image);
    assert!(payloads.is_empty());
    assert_eq!(end, 0);
}

#[test]
fn largest_length_prefix_is_read_as_unsigned() {
    let image = vec![0xff, 0xff, 0xff, 0xff, 1, 2, 3];
    let (payloads, end) = parse_records(&image);
    assert!(payloads.is_empty());
    assert_eq!(end, 0);
}

#[test]
fn error_messages() {
    assert_eq!(StorageError::OutOfBounds.message(), "Read beyond segment bounds");
    assert_eq!(StorageError::EmptySegment.message(), "Cannot read from empty segment");
    assert_eq!(StorageError::Serialization.message(), "Entry cannot be serialized");
    assert_eq!(StorageError::CorruptLog.message(), "Log record cannot be decoded");
}
