//! Tests of the length-prefixed framing.

use fakenotify::frame::{FramedMessage, MAX_FRAME_SIZE};

#[test]
fn test_framed_message() {
    let payload = b"hello world";
    let framed = FramedMessage::frame(payload);

    assert_eq!(framed.len(), 4 + payload.len());
    assert_eq!(FramedMessage::read_length(&framed), Some(payload.len() as u32));
    assert_eq!(&framed[4..], payload);
}

#[test]
fn test_frame_length_roundtrip() {
    // The length prefix of a frame always reads back as the payload's
    // length, including for an empty payload.
    let empty = FramedMessage::frame(&[]);
    assert_eq!(FramedMessage::read_length(&empty), Some(0));
    assert_eq!(empty.len(), 4);

    let one = FramedMessage::frame(&[0xAB]);
    assert_eq!(FramedMessage::read_length(&one), Some(1));
    assert_eq!(&one[4..], &[0xAB]);
}

#[test]
fn test_read_length_needs_four_bytes() {
    assert_eq!(FramedMessage::read_length(&[]), None);
    assert_eq!(FramedMessage::read_length(&[1, 2, 3]), None);
    assert_eq!(FramedMessage::read_length(&[1, 0, 0, 0]), Some(1));
}

#[test]
fn test_oversized_frames_rejected() {
    // A peer must reject any advertised length above 1 MiB.
    assert_eq!(MAX_FRAME_SIZE, 1024 * 1024);
    assert!(FramedMessage::length_acceptable(1024 * 1024));
    assert!(!FramedMessage::length_acceptable(1024 * 1024 + 1));
    assert!(FramedMessage::length_acceptable(0));
}
