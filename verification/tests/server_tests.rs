//! Tests of the daemon's request handling.

use fakenotify::mask::{IN_CREATE, IN_DELETE};
use fakenotify::message::{Request, Response};
use fakenotify::registry::DaemonState;
use fakenotify::server::handle_request;

fn fresh_client(state: &mut DaemonState) -> u64 {
    state.register_client()
}

#[test]
fn test_ping_pong() {
    let mut state = DaemonState::new();
    let c = fresh_client(&mut state);
    let r = handle_request(&mut state, c, Request::Ping, false);
    assert_eq!(r, Response::Pong);
}

#[test]
fn test_register_answers_existing_id() {
    let mut state = DaemonState::new();
    let c = fresh_client(&mut state);
    let r = handle_request(&mut state, c, Request::RegisterClient, false);
    assert_eq!(r, Response::ClientRegistered { client_id: c });
}

#[test]
fn test_add_watch_missing_path_refused() {
    let mut state = DaemonState::new();
    let c = fresh_client(&mut state);
    let r = handle_request(
        &mut state,
        c,
        Request::AddWatch { path: b"/does/not/exist".to_vec(), mask: IN_CREATE },
        false,
    );
    assert!(matches!(r, Response::Error { .. }));
    assert!(state.get_wd_for_path(&b"/does/not/exist".to_vec()).is_none());
}

#[test]
fn test_add_watch_shares_descriptor_and_merges_mask() {
    let mut state = DaemonState::new();
    let a = fresh_client(&mut state);
    let b = fresh_client(&mut state);

    let ra = handle_request(
        &mut state,
        a,
        Request::AddWatch { path: b"/tmp/x".to_vec(), mask: IN_CREATE },
        true,
    );
    let rb = handle_request(
        &mut state,
        b,
        Request::AddWatch { path: b"/tmp/x".to_vec(), mask: IN_DELETE },
        true,
    );
    let wd_a = match ra {
        Response::WatchAdded { wd } => wd,
        other => panic!("unexpected response: {:?}", other),
    };
    let wd_b = match rb {
        Response::WatchAdded { wd } => wd,
        other => panic!("unexpected response: {:?}", other),
    };
    assert_eq!(wd_a, wd_b);
    assert_eq!(state.get_watch(wd_a).unwrap().mask, IN_CREATE | IN_DELETE);
}

#[test]
fn test_remove_watch_request() {
    let mut state = DaemonState::new();
    let c = fresh_client(&mut state);
    let r = handle_request(
        &mut state,
        c,
        Request::AddWatch { path: b"/tmp/x".to_vec(), mask: IN_CREATE },
        true,
    );
    let wd = match r {
        Response::WatchAdded { wd } => wd,
        other => panic!("unexpected response: {:?}", other),
    };
    let r = handle_request(&mut state, c, Request::RemoveWatch { wd }, false);
    assert_eq!(r, Response::WatchRemoved);
    let r = handle_request(&mut state, c, Request::RemoveWatch { wd }, false);
    assert!(matches!(r, Response::Error { .. }));
}
