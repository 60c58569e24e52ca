//! Tests of the binary event-record codec.

use fakenotify::event::{event_size_with_name, InotifyEvent, HEADER_SIZE};
use fakenotify::mask::{mask_contains, IN_CREATE, IN_ISDIR};

#[test]
fn test_event_header_size() {
    // The record header is always 16 bytes.
    assert_eq!(HEADER_SIZE, 16);
}

#[test]
fn test_event_roundtrip() {
    let event = InotifyEvent::new(42, IN_CREATE, 0);
    let bytes = event.header_to_bytes();
    let parsed = InotifyEvent::from_bytes(&bytes).unwrap();
    assert_eq!(parsed.wd, 42);
    assert_eq!(parsed.mask, IN_CREATE);
    assert_eq!(parsed.cookie, 0);
    assert_eq!(parsed.len, 0);
}

#[test]
fn test_event_with_name() {
    let event = InotifyEvent::new(1, IN_CREATE, 0);
    let bytes = event.to_bytes_with_name(b"test.txt");

    // Header (16) + "test.txt" (8) + NUL (1) = 25, padded to 28.
    assert_eq!(bytes.len(), 16 + 12);

    let parsed = InotifyEvent::from_bytes(&bytes).unwrap();
    assert_eq!(parsed.len, 12); // padded length

    let name_bytes = &bytes[16..16 + 8];
    assert_eq!(name_bytes, b"test.txt");
    assert_eq!(bytes[24], 0); // NUL terminator
}

#[test]
fn test_event_mask_all() {
    // IN_ALL_EVENTS holds the twelve watchable bits.
    let all = fakenotify::mask::IN_ALL_EVENTS;
    assert!(mask_contains(all, fakenotify::mask::IN_ACCESS));
    assert!(mask_contains(all, fakenotify::mask::IN_MODIFY));
    assert!(mask_contains(all, fakenotify::mask::IN_ATTRIB));
    assert!(mask_contains(all, fakenotify::mask::IN_CLOSE_WRITE));
    assert!(mask_contains(all, fakenotify::mask::IN_CLOSE_NOWRITE));
    assert!(mask_contains(all, fakenotify::mask::IN_OPEN));
    assert!(mask_contains(all, fakenotify::mask::IN_MOVED_FROM));
    assert!(mask_contains(all, fakenotify::mask::IN_MOVED_TO));
    assert!(mask_contains(all, fakenotify::mask::IN_CREATE));
    assert!(mask_contains(all, fakenotify::mask::IN_DELETE));
    assert!(mask_contains(all, fakenotify::mask::IN_DELETE_SELF));
    assert!(mask_contains(all, fakenotify::mask::IN_MOVE_SELF));
}

#[test]
fn test_event_size_calculation() {
    // Empty name: NUL + padding.
    assert_eq!(event_size_with_name(0), 16 + 4);

    // "a" -> 1 + 1 NUL = 2, padded to 4.
    assert_eq!(event_size_with_name(1), 16 + 4);

    // "abc" -> 3 + 1 NUL = 4, no padding needed.
    assert_eq!(event_size_with_name(3), 16 + 4);

    // "abcd" -> 4 + 1 NUL = 5, padded to 8.
    assert_eq!(event_size_with_name(4), 16 + 8);
}

#[test]
fn test_record_layout_bit_exact() {
    // (wd = 1, mask = IN_CREATE, cookie = 0, name = "a.txt") encodes to
    // the 16 header fields in host order, then an 8-byte trailer: the
    // name, a NUL, and two bytes of padding.
    let event = InotifyEvent::new(1, IN_CREATE, 0);
    let bytes = event.to_bytes_with_name(b"a.txt");
    assert_eq!(bytes.len(), 24);
    assert_eq!(
        &bytes[..16],
        &[
            0x01, 0x00, 0x00, 0x00, // wd = 1
            0x00, 0x01, 0x00, 0x00, // mask = 0x100
            0x00, 0x00, 0x00, 0x00, // cookie = 0
            0x08, 0x00, 0x00, 0x00, // len = 8
        ]
    );
    assert_eq!(&bytes[16..], &[0x61, 0x2E, 0x74, 0x78, 0x74, 0x00, 0x00, 0x00]);
}

#[test]
fn test_decode_short_buffer_fails() {
    // Anything under 16 bytes is rejected.
    assert!(InotifyEvent::from_bytes(&[]).is_none());
    assert!(InotifyEvent::from_bytes(&[0u8; 15]).is_none());
    assert!(InotifyEvent::from_bytes(&[0u8; 16]).is_some());
}

#[test]
fn test_record_roundtrip_with_directory_bit() {
    let event = InotifyEvent::new(7, IN_CREATE | IN_ISDIR, 9);
    let bytes = event.to_bytes_with_name(b"sub");
    let parsed = InotifyEvent::from_bytes(&bytes).unwrap();
    assert_eq!(parsed.wd, 7);
    assert_eq!(parsed.mask, IN_CREATE | IN_ISDIR);
    assert_eq!(parsed.cookie, 9);
    assert_eq!(parsed.len, 4);
    assert_eq!(&bytes[16..16 + 3], b"sub");
    assert_eq!(bytes[19], 0);
}

#[test]
fn test_event_mask_strips_unknown_bits() {
    let event = InotifyEvent::new(1, 0x0051_0100, 0);
    // 0x0051_0100 holds IN_CREATE plus bits the protocol does not define.
    assert_eq!(event.event_mask(), IN_CREATE);
}
