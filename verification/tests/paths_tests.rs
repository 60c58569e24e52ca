//! Tests of byte-string path arithmetic.

use fakenotify::paths::{parent_of, relative_name};

#[test]
fn test_parent_chain() {
    assert_eq!(parent_of(&b"/a/b".to_vec()), Some(b"/a".to_vec()));
    assert_eq!(parent_of(&b"/a".to_vec()), Some(b"/".to_vec()));
    assert_eq!(parent_of(&b"/".to_vec()), None);
    assert_eq!(parent_of(&b"name".to_vec()), None);
}

#[test]
fn test_relative_name_under_root() {
    assert_eq!(
        relative_name(&b"/a".to_vec(), &b"/a/b/c".to_vec()),
        Some(b"b/c".to_vec())
    );
    assert_eq!(
        relative_name(&b"/".to_vec(), &b"/top".to_vec()),
        Some(b"top".to_vec())
    );
}

#[test]
fn test_relative_name_at_root_is_absent() {
    assert_eq!(relative_name(&b"/a".to_vec(), &b"/a".to_vec()), None);
}

#[test]
fn test_relative_name_unrelated_paths() {
    assert_eq!(relative_name(&b"/a".to_vec(), &b"/ab/c".to_vec()), None);
    assert_eq!(relative_name(&b"/a/b".to_vec(), &b"/a".to_vec()), None);
}
