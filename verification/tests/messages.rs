//! Tests of the request/response message codec.

use fakenotify::message::{Request, Response};
use fakenotify::PROTOCOL_VERSION;

#[test]
fn test_request_roundtrip() {
    let requests = vec![
        Request::RegisterClient,
        Request::AddWatch { path: b"/tmp/test".to_vec(), mask: 0x100 },
        Request::RemoveWatch { wd: 42 },
        Request::Ping,
    ];

    for req in requests {
        let bytes = req.to_bytes().unwrap();
        let decoded = Request::from_bytes(&bytes).unwrap();
        assert_eq!(req, decoded);
    }
}

#[test]
fn test_response_roundtrip() {
    let responses = vec![
        Response::ClientRegistered { client_id: 12345 },
        Response::WatchAdded { wd: 1 },
        Response::WatchRemoved,
        Response::Error { message: b"test error".to_vec() },
        Response::Pong,
    ];

    for resp in responses {
        let bytes = resp.to_bytes().unwrap();
        let decoded = Response::from_bytes(&bytes).unwrap();
        assert_eq!(resp, decoded);
    }
}

#[test]
fn test_response_error_helper() {
    let resp = Response::error(b"something went wrong".to_vec());
    match resp {
        Response::Error { message } => assert_eq!(message, b"something went wrong".to_vec()),
        _ => panic!("expected Error variant"),
    }
}

#[test]
fn test_protocol_version_exists() {
    assert!(PROTOCOL_VERSION >= 1);
}

#[test]
fn test_reexports_accessible() {
    // The main types are reachable from the crate root.
    let _ = fakenotify::Request::Ping;
    let _ = fakenotify::Response::Pong;
    let _ = fakenotify::mask::IN_CREATE;
    let _ = fakenotify::event::HEADER_SIZE;
    let _ = fakenotify::DEFAULT_SOCKET_PATH;
}

#[test]
fn test_malformed_request_rejected() {
    // An empty buffer, an unknown tag, and a truncated add-watch all
    // fail to decode.
    assert!(Request::from_bytes(&[]).is_err());
    assert!(Request::from_bytes(&[9]).is_err());
    assert!(Request::from_bytes(&[1, 5, 0, 0, 0]).is_err());
}

#[test]
fn test_trailing_bytes_rejected() {
    // Decoding consumes the whole buffer; anything extra is refused.
    let mut bytes = Request::RegisterClient.to_bytes().unwrap();
    bytes.push(0);
    assert!(Request::from_bytes(&bytes).is_err());

    let mut bytes = Response::Pong.to_bytes().unwrap();
    bytes.push(0);
    assert!(Response::from_bytes(&bytes).is_err());
}

#[test]
fn test_malformed_response_rejected() {
    assert!(Response::from_bytes(&[]).is_err());
    assert!(Response::from_bytes(&[7]).is_err());
    // A client-registered answer needs its full 8-byte id.
    assert!(Response::from_bytes(&[0, 1, 2]).is_err());
}
