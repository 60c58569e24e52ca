//! Tests of the watch/client registry.

use fakenotify::mask::{IN_CREATE, IN_DELETE};
use fakenotify::registry::DaemonState;

#[test]
fn test_daemon_state_new() {
    let state = DaemonState::new();
    assert_eq!(state.clients.len(), 0);
    assert_eq!(state.watches.len(), 0);
}

#[test]
fn test_dedup_on_add() {
    // Two clients watch the same path: both get the same descriptor and
    // the watch's mask is the union of what they asked for.
    let mut state = DaemonState::new();
    let a = state.register_client();
    let b = state.register_client();

    let wd_a = state.add_watch(a, b"/tmp/x".to_vec(), IN_CREATE, true);
    let wd_b = state.add_watch(b, b"/tmp/x".to_vec(), IN_DELETE, true);
    assert_eq!(wd_a, wd_b);

    let watch = state.get_watch(wd_a).unwrap();
    assert_eq!(watch.mask, IN_CREATE | IN_DELETE);
    assert_eq!(watch.mask, 0x300);
    assert!(watch.clients.contains(&a));
    assert!(watch.clients.contains(&b));
    assert_eq!(state.watches.len(), 1);

    // A create under the path fans out to both clients.
    let subscribers = state.get_clients_for_watch(wd_a);
    assert!(subscribers.contains(&a));
    assert!(subscribers.contains(&b));
    assert_eq!(subscribers.len(), 2);
}

#[test]
fn test_disconnect_cleanup() {
    // A single client adds a watch and disconnects: the path leaves the
    // index, and the next watch gets a fresh descriptor.
    let mut state = DaemonState::new();
    let c = state.register_client();
    let wd = state.add_watch(c, b"/srv/data".to_vec(), IN_CREATE, true);

    state.unregister_client(c);
    assert!(state.get_wd_for_path(&b"/srv/data".to_vec()).is_none());
    assert!(state.get_watch(wd).is_none());
    assert!(state.get_client(c).is_none());

    let c2 = state.register_client();
    let wd2 = state.add_watch(c2, b"/srv/data".to_vec(), IN_CREATE, true);
    assert_ne!(wd2, wd);
    assert!(wd2 > wd);
}

#[test]
fn test_descriptors_strictly_increase() {
    let mut state = DaemonState::new();
    let c = state.register_client();
    let wd1 = state.add_watch(c, b"/a".to_vec(), IN_CREATE, false);
    let wd2 = state.add_watch(c, b"/b".to_vec(), IN_CREATE, false);
    let ok = state.remove_watch(c, wd1);
    assert!(ok);
    let wd3 = state.add_watch(c, b"/a".to_vec(), IN_CREATE, false);
    assert!(wd1 < wd2);
    assert!(wd2 < wd3);
}

#[test]
fn test_remove_watch_unknown_descriptor() {
    let mut state = DaemonState::new();
    let c = state.register_client();
    assert!(!state.remove_watch(c, 7));
}

#[test]
fn test_watch_dies_with_last_subscriber() {
    let mut state = DaemonState::new();
    let a = state.register_client();
    let b = state.register_client();
    let wd = state.add_watch(a, b"/tmp/x".to_vec(), IN_CREATE, true);
    state.add_watch(b, b"/tmp/x".to_vec(), IN_CREATE, true);

    assert!(state.remove_watch(a, wd));
    // One subscriber remains; the watch survives.
    assert!(state.get_watch(wd).is_some());

    assert!(state.remove_watch(b, wd));
    // The last subscriber left; the watch and its index entry are gone.
    assert!(state.get_watch(wd).is_none());
    assert!(state.get_wd_for_path(&b"/tmp/x".to_vec()).is_none());
}

#[test]
fn test_subscription_symmetry_concrete() {
    // The client's watch list and the watch's subscriber list agree.
    let mut state = DaemonState::new();
    let c = state.register_client();
    let wd = state.add_watch(c, b"/tmp/x".to_vec(), IN_CREATE, true);

    let client = state.get_client(c).unwrap();
    assert!(client.watches.contains(&wd));
    let watch = state.get_watch(wd).unwrap();
    assert!(watch.clients.contains(&c));
}

#[test]
fn test_find_watch_recursive_ancestor() {
    // An exact watch wins; otherwise the nearest recursive ancestor.
    let mut state = DaemonState::new();
    let c = state.register_client();
    let wd_root = state.add_watch(c, b"/a".to_vec(), IN_CREATE, true);
    let wd_mid = state.add_watch(c, b"/a/b".to_vec(), IN_CREATE, false);

    // Exact match.
    assert_eq!(state.find_watch_for_path(&b"/a/b".to_vec()).unwrap().wd, wd_mid);
    // The non-recursive watch at /a/b is skipped; /a catches it.
    assert_eq!(state.find_watch_for_path(&b"/a/b/c".to_vec()).unwrap().wd, wd_root);
    // Nothing above an unrelated path.
    assert!(state.find_watch_for_path(&b"/z/q".to_vec()).is_none());
}

#[test]
fn test_stats_counts() {
    let mut state = DaemonState::new();
    let c = state.register_client();
    state.add_watch(c, b"/a".to_vec(), IN_CREATE, true);
    let stats = state.stats(17);
    assert_eq!(stats.uptime_secs, 17);
    assert_eq!(stats.total_clients, 1);
    assert_eq!(stats.total_watches, 1);
}

#[test]
fn test_get_watched_paths() {
    let mut state = DaemonState::new();
    let c = state.register_client();
    state.add_watch(c, b"/a".to_vec(), IN_CREATE, true);
    state.add_watch(c, b"/b".to_vec(), IN_CREATE, true);
    let paths = state.get_watched_paths();
    assert_eq!(paths.len(), 2);
    assert!(paths.contains(&b"/a".to_vec()));
    assert!(paths.contains(&b"/b".to_vec()));
}
