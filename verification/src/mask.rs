//! Event-mask bits of the kernel inotify ABI.
//!
//! A mask is a set of 32 flag bits; the numeric values must equal the
//! kernel's inotify mask bits exactly, since encoded records are read by
//! applications that expect the kernel layout.

use vstd::prelude::*;

verus! {

/// File was accessed (e.g. read).
pub const IN_ACCESS: u32 = 0x0000_0001;
/// File was modified.
pub const IN_MODIFY: u32 = 0x0000_0002;
/// Metadata changed (permissions, timestamps, ...).
pub const IN_ATTRIB: u32 = 0x0000_0004;
/// Writable file was closed.
pub const IN_CLOSE_WRITE: u32 = 0x0000_0008;
/// Unwritable file was closed.
pub const IN_CLOSE_NOWRITE: u32 = 0x0000_0010;
/// File was opened.
pub const IN_OPEN: u32 = 0x0000_0020;
/// File or directory moved out of a watched directory.
pub const IN_MOVED_FROM: u32 = 0x0000_0040;
/// File or directory moved into a watched directory.
pub const IN_MOVED_TO: u32 = 0x0000_0080;
/// File or directory created in a watched directory.
pub const IN_CREATE: u32 = 0x0000_0100;
/// File or directory deleted from a watched directory.
pub const IN_DELETE: u32 = 0x0000_0200;
/// The watched file or directory itself was deleted.
pub const IN_DELETE_SELF: u32 = 0x0000_0400;
/// The watched file or directory itself was moved.
pub const IN_MOVE_SELF: u32 = 0x0000_0800;
/// Filesystem containing the watched object was unmounted.
pub const IN_UNMOUNT: u32 = 0x0000_2000;
/// Event queue overflowed.
pub const IN_Q_OVERFLOW: u32 = 0x0000_4000;
/// Watch was removed (explicitly or automatically).
pub const IN_IGNORED: u32 = 0x0000_8000;
/// Only watch the path if it is a directory.
pub const IN_ONLYDIR: u32 = 0x0100_0000;
/// Do not follow symlinks.
pub const IN_DONT_FOLLOW: u32 = 0x0200_0000;
/// Add to an existing watch mask rather than replacing it.
pub const IN_MASK_ADD: u32 = 0x2000_0000;
/// Subject of the event is a directory.
pub const IN_ISDIR: u32 = 0x4000_0000;
/// Send the event once, then remove the watch.
pub const IN_ONESHOT: u32 = 0x8000_0000;

/// Close event, write or no-write.
pub const IN_CLOSE: u32 = IN_CLOSE_WRITE | IN_CLOSE_NOWRITE;
/// Move event, from or to.
pub const IN_MOVE: u32 = IN_MOVED_FROM | IN_MOVED_TO;

/// Union of the twelve watchable event bits.
pub const IN_ALL_EVENTS: u32 = IN_ACCESS | IN_MODIFY | IN_ATTRIB | IN_CLOSE_WRITE
    | IN_CLOSE_NOWRITE | IN_OPEN | IN_MOVED_FROM | IN_MOVED_TO | IN_CREATE | IN_DELETE
    | IN_DELETE_SELF | IN_MOVE_SELF;

/// Every bit this protocol defines; `event_mask` strips anything else.
pub const KNOWN_MASK_BITS: u32 = IN_ALL_EVENTS | IN_UNMOUNT | IN_Q_OVERFLOW | IN_IGNORED
    | IN_ONLYDIR | IN_DONT_FOLLOW | IN_MASK_ADD | IN_ISDIR | IN_ONESHOT;

/// The numeric values of the derived mask constants, for callers that
/// reason about individual bits.
pub proof fn lemma_mask_values()
    ensures
        IN_CLOSE == 0x18u32,
        IN_MOVE == 0xC0u32,
        IN_ALL_EVENTS == 0x0FFFu32,
        KNOWN_MASK_BITS == 0xE300_EFFFu32,
{
    assert((0x0000_0008u32 | 0x0000_0010u32) == 0x18u32) by (bit_vector);
    assert((0x0000_0040u32 | 0x0000_0080u32) == 0xC0u32) by (bit_vector);
    assert((0x0000_0001u32 | 0x0000_0002u32 | 0x0000_0004u32 | 0x0000_0008u32 | 0x0000_0010u32
        | 0x0000_0020u32 | 0x0000_0040u32 | 0x0000_0080u32 | 0x0000_0100u32 | 0x0000_0200u32
        | 0x0000_0400u32 | 0x0000_0800u32) == 0x0FFFu32) by (bit_vector);
    assert((0x0FFFu32 | 0x0000_2000u32 | 0x0000_4000u32 | 0x0000_8000u32 | 0x0100_0000u32
        | 0x0200_0000u32 | 0x2000_0000u32 | 0x4000_0000u32 | 0x8000_0000u32) == 0xE300_EFFFu32)
        by (bit_vector);
}

/// True when every bit of `flags` is set in `m`.
pub open spec fn spec_mask_contains(m: u32, flags: u32) -> bool {
    m & flags == flags
}

/// True when `m` and `flags` share at least one bit.
pub open spec fn spec_mask_intersects(m: u32, flags: u32) -> bool {
    m & flags != 0
}

/// True when every bit of `flags` is set in `m`.
pub fn mask_contains(m: u32, flags: u32) -> (r: bool)
    ensures
        r == spec_mask_contains(m, flags),
{
    m & flags == flags
}

/// True when `m` and `flags` share at least one bit.
pub fn mask_intersects(m: u32, flags: u32) -> (r: bool)
    ensures
        r == spec_mask_intersects(m, flags),
{
    m & flags != 0
}

} // verus!
