//! Tests of the event dispatcher: classification, cookie pairing,
//! attribution and record emission.

use fakenotify::dispatch::{notify_to_inotify_mask, EventDispatcher, RawEventKind, WatcherEvent};
use fakenotify::event::InotifyEvent;
use fakenotify::mask::{
    IN_ACCESS, IN_ATTRIB, IN_CREATE, IN_DELETE, IN_ISDIR, IN_MODIFY, IN_MOVED_FROM, IN_MOVED_TO,
};
use fakenotify::registry::DaemonState;

#[test]
fn test_notify_to_inotify_mask_create() {
    let mask = notify_to_inotify_mask(&RawEventKind::CreateFile, false);
    assert!(mask.is_some());
    assert!(mask.unwrap() & IN_CREATE != 0);
    assert!(mask.unwrap() & IN_ISDIR == 0);
}

#[test]
fn test_notify_to_inotify_mask_create_dir() {
    let mask = notify_to_inotify_mask(&RawEventKind::CreateFolder, true);
    assert!(mask.is_some());
    assert!(mask.unwrap() & IN_CREATE != 0);
    assert!(mask.unwrap() & IN_ISDIR != 0);
}

#[test]
fn test_notify_to_inotify_mask_modify() {
    let mask = notify_to_inotify_mask(&RawEventKind::ModifyData, false);
    assert!(mask.is_some());
    assert!(mask.unwrap() & IN_MODIFY != 0);
}

#[test]
fn test_notify_to_inotify_mask_delete() {
    let mask = notify_to_inotify_mask(&RawEventKind::RemoveFile, false);
    assert!(mask.is_some());
    assert!(mask.unwrap() & IN_DELETE != 0);
}

#[test]
fn test_cookie_generation() {
    let mut dispatcher = EventDispatcher::new();
    let c1 = dispatcher.next_cookie();
    let c2 = dispatcher.next_cookie();
    assert_ne!(c1, c2);
}

#[test]
fn test_isdir_iff_directory_flag() {
    for kind in [
        RawEventKind::CreateAny,
        RawEventKind::ModifyMetadata,
        RawEventKind::RemoveAny,
        RawEventKind::Access,
    ] {
        let without = notify_to_inotify_mask(&kind, false).unwrap();
        let with = notify_to_inotify_mask(&kind, true).unwrap();
        assert_eq!(without & IN_ISDIR, 0);
        assert_eq!(with & IN_ISDIR, IN_ISDIR);
        assert_eq!(with & !IN_ISDIR, without);
    }
    assert!(notify_to_inotify_mask(&RawEventKind::Other, true).is_none());
    assert_eq!(
        notify_to_inotify_mask(&RawEventKind::ModifyMetadata, false).unwrap(),
        IN_ATTRIB
    );
    assert_eq!(notify_to_inotify_mask(&RawEventKind::Access, false).unwrap(), IN_ACCESS);
}

/// Parse one framed record: (wd, mask, cookie, name bytes).
fn parse_framed_record(framed: &[u8]) -> (i32, u32, u32, Vec<u8>) {
    let len = u32::from_le_bytes(framed[0..4].try_into().unwrap()) as usize;
    let payload = &framed[4..];
    assert_eq!(payload.len(), len);
    let header = InotifyEvent::from_bytes(payload).unwrap();
    let trailer = &payload[16..16 + header.len as usize];
    let name: Vec<u8> = trailer.iter().copied().take_while(|b| *b != 0).collect();
    (header.wd, header.mask, header.cookie, name)
}

fn watched_state(path: &[u8], mask: u32, recursive: bool) -> (DaemonState, u64, i32) {
    let mut state = DaemonState::new();
    let c = state.register_client();
    let wd = state.add_watch(c, path.to_vec(), mask, recursive);
    (state, c, wd)
}

#[test]
fn test_recursive_attribution_names_relative_path() {
    // A recursive watch at /a sees a change at /a/b/c under the name
    // "b/c".
    let (state, c, wd) = watched_state(b"/a", IN_CREATE, true);
    let mut dispatcher = EventDispatcher::new();
    let event = WatcherEvent {
        path: b"/a/b/c".to_vec(),
        kind: RawEventKind::CreateFile,
        is_dir: false,
    };
    let (framed, subscribers) = dispatcher.handle_event(&state, &event).unwrap();
    assert_eq!(subscribers, vec![c]);
    let (got_wd, got_mask, got_cookie, name) = parse_framed_record(&framed);
    assert_eq!(got_wd, wd);
    assert_eq!(got_mask, IN_CREATE);
    assert_eq!(got_cookie, 0);
    assert_eq!(name, b"b/c".to_vec());
}

#[test]
fn test_event_at_watch_root_has_no_name() {
    let (state, _c, wd) = watched_state(b"/a", IN_MODIFY, true);
    let mut dispatcher = EventDispatcher::new();
    let event = WatcherEvent {
        path: b"/a".to_vec(),
        kind: RawEventKind::ModifyData,
        is_dir: true,
    };
    let (framed, _) = dispatcher.handle_event(&state, &event).unwrap();
    let len = u32::from_le_bytes(framed[0..4].try_into().unwrap()) as usize;
    assert_eq!(len, 16); // header only, len field 0
    let header = InotifyEvent::from_bytes(&framed[4..]).unwrap();
    assert_eq!(header.wd, wd);
    assert_eq!(header.len, 0);
}

#[test]
fn test_rename_pairing() {
    // With a recursive watch at /w, a move-from at /w/old.txt and the
    // following move-to at /w/new.txt yield two records with the watch's
    // descriptor, the two move masks, the same non-zero cookie, and the
    // two names.
    let (state, _c, wd) = watched_state(b"/w", IN_MOVED_FROM | IN_MOVED_TO, true);
    let mut dispatcher = EventDispatcher::new();

    let from = WatcherEvent {
        path: b"/w/old.txt".to_vec(),
        kind: RawEventKind::RenameFrom,
        is_dir: false,
    };
    let (framed_from, _) = dispatcher.handle_event(&state, &from).unwrap();
    let (wd1, mask1, cookie1, name1) = parse_framed_record(&framed_from);

    let to = WatcherEvent {
        path: b"/w/new.txt".to_vec(),
        kind: RawEventKind::RenameTo,
        is_dir: false,
    };
    let (framed_to, _) = dispatcher.handle_event(&state, &to).unwrap();
    let (wd2, mask2, cookie2, name2) = parse_framed_record(&framed_to);

    assert_eq!(wd1, wd);
    assert_eq!(wd2, wd);
    assert_eq!(mask1, IN_MOVED_FROM);
    assert_eq!(mask2, IN_MOVED_TO);
    assert_ne!(cookie1, 0);
    assert_eq!(cookie1, cookie2);
    assert_eq!(name1, b"old.txt".to_vec());
    assert_eq!(name2, b"new.txt".to_vec());
}

#[test]
fn test_rename_pairing_same_path() {
    // A move-to at the stashed source path consumes that stash.
    let (state, _c, _wd) = watched_state(b"/w", IN_MOVED_FROM | IN_MOVED_TO, true);
    let mut dispatcher = EventDispatcher::new();

    let from = WatcherEvent {
        path: b"/w/f".to_vec(),
        kind: RawEventKind::RenameFrom,
        is_dir: false,
    };
    let (framed_from, _) = dispatcher.handle_event(&state, &from).unwrap();
    let (_, _, cookie1, _) = parse_framed_record(&framed_from);

    let to = WatcherEvent { path: b"/w/f".to_vec(), kind: RawEventKind::RenameTo, is_dir: false };
    let (framed_to, _) = dispatcher.handle_event(&state, &to).unwrap();
    let (_, _, cookie2, _) = parse_framed_record(&framed_to);
    assert_eq!(cookie1, cookie2);
    assert_ne!(cookie1, 0);
}

#[test]
fn test_unattributed_event_dropped() {
    let (state, _c, _wd) = watched_state(b"/a", IN_CREATE, true);
    let mut dispatcher = EventDispatcher::new();
    let event = WatcherEvent {
        path: b"/elsewhere/x".to_vec(),
        kind: RawEventKind::CreateFile,
        is_dir: false,
    };
    assert!(dispatcher.handle_event(&state, &event).is_none());
}

#[test]
fn test_filtered_event_dropped() {
    // The watch asks for deletions only; a create is dropped.
    let (state, _c, _wd) = watched_state(b"/a", IN_DELETE, true);
    let mut dispatcher = EventDispatcher::new();
    let event = WatcherEvent {
        path: b"/a/x".to_vec(),
        kind: RawEventKind::CreateFile,
        is_dir: false,
    };
    assert!(dispatcher.handle_event(&state, &event).is_none());
}

#[test]
fn test_engine_specific_event_dropped() {
    let (state, _c, _wd) = watched_state(b"/a", IN_CREATE, true);
    let mut dispatcher = EventDispatcher::new();
    let event = WatcherEvent { path: b"/a/x".to_vec(), kind: RawEventKind::Other, is_dir: false };
    assert!(dispatcher.handle_event(&state, &event).is_none());
}
