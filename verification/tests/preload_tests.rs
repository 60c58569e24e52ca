//! Tests of the interposition layer's decision logic.

use fakenotify::message::Response;
use fakenotify::preload::{
    add_watch_outcome, backoff_delay_ms, connect_should_give_up, get_socket_path,
    registration_succeeded, rm_watch_outcome, CallOutcome, ManagedFds,
};

#[test]
fn test_managed_fds() {
    let mut fds = ManagedFds::new();

    assert!(!fds.is_managed_fd(42));

    fds.register_fd(42);
    assert!(fds.is_managed_fd(42));

    fds.unregister_fd(42);
    assert!(!fds.is_managed_fd(42));
}

#[test]
fn test_managed_fds_set_semantics() {
    let mut fds = ManagedFds::new();
    fds.register_fd(3);
    fds.register_fd(3);
    fds.register_fd(4);
    assert!(fds.is_managed_fd(3));
    assert!(fds.is_managed_fd(4));
    fds.unregister_fd(3);
    assert!(!fds.is_managed_fd(3));
    assert!(fds.is_managed_fd(4));
    fds.unregister_fd(5); // unknown: no effect
    assert!(fds.is_managed_fd(4));
}

#[test]
fn test_socket_path_uses_xdg() {
    // No override, but a runtime directory: the socket lives inside it.
    let path = get_socket_path(None, Some("/run/user/1000".to_string()));
    assert_eq!(path, "/run/user/1000/fakenotify.sock".to_string());
}

#[test]
fn test_socket_path_env_override() {
    let path = get_socket_path(Some("/tmp/test.sock".to_string()), None);
    assert_eq!(path, "/tmp/test.sock".to_string());
}

#[test]
fn test_backoff_schedule() {
    // 100, 200, 400, 800, then capped at 1000 ms.
    assert_eq!(backoff_delay_ms(1), 100);
    assert_eq!(backoff_delay_ms(2), 200);
    assert_eq!(backoff_delay_ms(3), 400);
    assert_eq!(backoff_delay_ms(4), 800);
    assert_eq!(backoff_delay_ms(5), 1000);
    assert_eq!(backoff_delay_ms(60), 1000);
}

#[test]
fn test_connect_gives_up_after_budget() {
    // With no daemon listening, the layer keeps retrying through its
    // budget and then signals the caller to fall back to the real
    // kernel implementation.
    assert!(!connect_should_give_up(1));
    assert!(!connect_should_give_up(60));
    assert!(connect_should_give_up(61));
}

#[test]
fn test_add_watch_outcomes() {
    assert_eq!(
        add_watch_outcome(Some(Response::WatchAdded { wd: 5 })),
        CallOutcome::Success(5)
    );
    assert_eq!(
        add_watch_outcome(Some(Response::Error { message: b"no".to_vec() })),
        CallOutcome::InvalidArgument
    );
    assert_eq!(add_watch_outcome(Some(Response::Pong)), CallOutcome::IoFailure);
    assert_eq!(add_watch_outcome(None), CallOutcome::IoFailure);
}

#[test]
fn test_rm_watch_outcomes() {
    assert_eq!(rm_watch_outcome(Some(Response::WatchRemoved)), CallOutcome::Success(0));
    assert_eq!(
        rm_watch_outcome(Some(Response::Error { message: b"no".to_vec() })),
        CallOutcome::InvalidArgument
    );
    assert_eq!(rm_watch_outcome(None), CallOutcome::IoFailure);
}

#[test]
fn test_registration_check() {
    assert!(registration_succeeded(&Some(Response::ClientRegistered { client_id: 9 })));
    assert!(!registration_succeeded(&Some(Response::Pong)));
    assert!(!registration_succeeded(&None));
}
