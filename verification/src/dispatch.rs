//! The event dispatcher: from raw polling notifications to encoded,
//! framed inotify records fanned out to subscribers.
//!
//! For each raw event the dispatcher attributes the path to a watch, turns
//! the engine's classification into inotify mask bits, filters against the
//! watch's mask, stamps rename halves with pairing cookies, relativises
//! the target's name against the watch root, and encodes one record inside
//! a framing envelope.  The caller performs the sends.

use crate::event::{spec_header_bytes, spec_record_bytes, InotifyEvent};
use crate::frame::{spec_frame_bytes, FramedMessage};
use crate::mask::{
    spec_mask_intersects, IN_ACCESS, IN_ALL_EVENTS, IN_ATTRIB, IN_CREATE, IN_DELETE, IN_ISDIR,
    IN_MODIFY, IN_MOVE, IN_MOVED_FROM, IN_MOVED_TO,
};
use crate::paths::spec_relative_name;
use crate::registry::{copy_vec, DaemonState};
use vstd::prelude::*;

verus! {

/// Classification of one raw change notification from the polling engine.
#[derive(Debug, Clone, Copy, PartialEq, Eq, Structural)]
pub enum RawEventKind {
    /// A file was created.
    CreateFile,
    /// A directory was created.
    CreateFolder,
    /// Something was created; kind unknown.
    CreateAny,
    /// File contents changed.
    ModifyData,
    /// Metadata changed.
    ModifyMetadata,
    /// A rename moved the path away.
    RenameFrom,
    /// A rename moved something onto the path.
    RenameTo,
    /// One event reporting both ends of a rename.
    RenameBoth,
    /// A rename whose direction the engine cannot tell.
    RenameAny,
    /// Some modification; kind unknown.
    ModifyAny,
    /// A file was removed.
    RemoveFile,
    /// A directory was removed.
    RemoveFolder,
    /// Something was removed; kind unknown.
    RemoveAny,
    /// The path was accessed.
    Access,
    /// Some change; kind unknown.
    Any,
    /// An engine-specific event with no inotify counterpart.
    Other,
}

/// One raw event handed over by the polling engine: the affected path,
/// its classification, and whether the target is a directory, resolved at
/// event time.
#[derive(Debug, Clone)]
pub struct WatcherEvent {
    /// Affected path.
    pub path: Vec<u8>,
    /// The engine's classification of the change.
    pub kind: RawEventKind,
    /// Whether the target is a directory.
    pub is_dir: bool,
}

/// The inotify mask bits a raw classification translates to, before the
/// directory bit; engine-specific events translate to nothing and are
/// dropped.
pub open spec fn spec_classify(kind: RawEventKind) -> Option<u32> {
    match kind {
        RawEventKind::CreateFile => Some(IN_CREATE),
        RawEventKind::CreateFolder => Some(IN_CREATE),
        RawEventKind::CreateAny => Some(IN_CREATE),
        RawEventKind::ModifyData => Some(IN_MODIFY),
        RawEventKind::ModifyMetadata => Some(IN_ATTRIB),
        RawEventKind::RenameFrom => Some(IN_MOVED_FROM),
        RawEventKind::RenameTo => Some(IN_MOVED_TO),
        RawEventKind::RenameBoth => Some(IN_MOVED_FROM | IN_MOVED_TO),
        RawEventKind::RenameAny => Some(IN_MOVE),
        RawEventKind::ModifyAny => Some(IN_MODIFY),
        RawEventKind::RemoveFile => Some(IN_DELETE),
        RawEventKind::RemoveFolder => Some(IN_DELETE),
        RawEventKind::RemoveAny => Some(IN_DELETE),
        RawEventKind::Access => Some(IN_ACCESS),
        RawEventKind::Any => Some(IN_ALL_EVENTS),
        RawEventKind::Other => None,
    }
}

/// The full mask of an event: its classification, with `IN_ISDIR` set
/// exactly when the raw event carried the directory flag.
pub open spec fn spec_event_mask(kind: RawEventKind, is_dir: bool) -> Option<u32> {
    match spec_classify(kind) {
        None => None,
        Some(base) => Some(
            if is_dir {
                base | IN_ISDIR
            } else {
                base
            },
        ),
    }
}

/// Translate a raw classification into inotify mask bits.  The
/// `IN_ISDIR` bit is set in the result exactly when `is_dir` is set.
pub fn notify_to_inotify_mask(kind: &RawEventKind, is_dir: bool) -> (r: Option<u32>)
    ensures
        r == spec_event_mask(*kind, is_dir),
        r matches Some(m) ==> ((m & IN_ISDIR == IN_ISDIR) <==> is_dir),
{
    let base = match kind {
        RawEventKind::CreateFile => IN_CREATE,
        RawEventKind::CreateFolder => IN_CREATE,
        RawEventKind::CreateAny => IN_CREATE,
        RawEventKind::ModifyData => IN_MODIFY,
        RawEventKind::ModifyMetadata => IN_ATTRIB,
        RawEventKind::RenameFrom => IN_MOVED_FROM,
        RawEventKind::RenameTo => IN_MOVED_TO,
        RawEventKind::RenameBoth => IN_MOVED_FROM | IN_MOVED_TO,
        RawEventKind::RenameAny => IN_MOVE,
        RawEventKind::ModifyAny => IN_MODIFY,
        RawEventKind::RemoveFile => IN_DELETE,
        RawEventKind::RemoveFolder => IN_DELETE,
        RawEventKind::RemoveAny => IN_DELETE,
        RawEventKind::Access => IN_ACCESS,
        RawEventKind::Any => IN_ALL_EVENTS,
        RawEventKind::Other => {
            return None;
        },
    };
    let m = if is_dir {
        base | IN_ISDIR
    } else {
        base
    };
    proof {
        crate::mask::lemma_mask_values();
        assert(base < 0x4000_0000u32);
        assert(base & 0x4000_0000u32 != 0x4000_0000u32) by (bit_vector)
            requires
                base < 0x4000_0000u32,
        ;
        assert((base | 0x4000_0000u32) & 0x4000_0000u32 == 0x4000_0000u32) by (bit_vector);
    }
    Some(m)
}

/// The cookie counter's successor; the counter wraps around.
pub open spec fn spec_wrap_inc(c: u32) -> u32 {
    if c == u32::MAX {
        0
    } else {
        (c + 1) as u32
    }
}

/// The dispatcher's own state: the rename halves already stamped and not
/// yet consumed (oldest first, one entry per source path), and the
/// monotonic cookie counter, which starts at 1 and may wrap.
pub struct EventDispatcher {
    /// Outstanding move-from halves: source path and the cookie stamped on
    /// it, oldest first.
    pub pending_renames: Vec<(Vec<u8>, u32)>,
    /// The next rename cookie to stamp.
    pub cookie_counter: u32,
}

impl EventDispatcher {
    /// Every outstanding rename has its own source path.
    pub open spec fn wf(self) -> bool {
        forall|i: int, j: int|
            #![trigger self.pending_renames@[i].0, self.pending_renames@[j].0]
            0 <= i < j < self.pending_renames@.len() ==> self.pending_renames@[i].0@
                != self.pending_renames@[j].0@
    }

    /// A rename from `path` is outstanding.
    pub open spec fn spec_has_pending(self, path: Seq<u8>) -> bool {
        exists|i: int|
            0 <= i < self.pending_renames@.len() && self.pending_renames@[i].0@ == path
    }

    /// Index of the outstanding rename from `path`.
    pub open spec fn spec_pending_idx(self, path: Seq<u8>) -> int {
        choose|i: int|
            0 <= i < self.pending_renames@.len() && self.pending_renames@[i].0@ == path
    }

    /// The cookie stamped on the outstanding rename from `path`.
    pub open spec fn spec_pending_cookie(self, path: Seq<u8>) -> u32 {
        self.pending_renames@[self.spec_pending_idx(path)].1
    }

    /// A dispatcher with no outstanding renames and its counter at the
    /// first cookie.
    pub fn new() -> (r: EventDispatcher)
        ensures
            r.wf(),
            r.pending_renames@.len() == 0,
            r.cookie_counter == 1,
    {
        EventDispatcher { pending_renames: Vec::new(), cookie_counter: 1 }
    }

    /// Stamp the next rename cookie: the counter's current value, after
    /// which the counter moves on, wrapping at the end of its range.
    pub fn next_cookie(&mut self) -> (c: u32)
        ensures
            c == old(self).cookie_counter,
            final(self).cookie_counter == spec_wrap_inc(old(self).cookie_counter),
            final(self).pending_renames@ == old(self).pending_renames@,
    {
        let c = self.cookie_counter;
        if self.cookie_counter == u32::MAX {
            self.cookie_counter = 0;
        } else {
            self.cookie_counter = self.cookie_counter + 1;
        }
        c
    }

    /// Consume the outstanding rename from `path`, if one is stamped.
    fn take_pending(&mut self, path: &Vec<u8>) -> (r: Option<u32>)
        requires
            old(self).wf(),
        ensures
            final(self).wf(),
            final(self).cookie_counter == old(self).cookie_counter,
            old(self).spec_has_pending(path@) ==> (r == Some(old(self).spec_pending_cookie(path@))
                && final(self).pending_renames@ == old(self).pending_renames@.remove(
                old(self).spec_pending_idx(path@),
            )),
            !old(self).spec_has_pending(path@) ==> (r is None && final(self).pending_renames@
                == old(self).pending_renames@),
    {
        let ghost orig = self.pending_renames@;
        let mut i: usize = 0;
        while i < self.pending_renames.len()
            invariant
                self.pending_renames@ == orig,
                self.cookie_counter == old(self).cookie_counter,
                orig == old(self).pending_renames@,
                forall|p: int, q: int|
                    #![trigger orig[p].0, orig[q].0]
                    0 <= p < q < orig.len() ==> orig[p].0@ != orig[q].0@,
                i <= orig.len(),
                forall|k: int| 0 <= k < i ==> orig[k].0@ != path@,
            decreases orig.len() - i,
        {
            if crate::registry::bytes_eq(&self.pending_renames[i].0, path) {
                let entry = self.pending_renames.remove(i);
                proof {
                    let oi = old(self).spec_pending_idx(path@);
                    assert(0 <= oi < orig.len() && orig[oi].0@ == path@);
                    assert(oi == i) by {
                        if oi < i {
                            assert(orig[oi].0@ != path@);
                        } else if oi > i {
                            assert(orig[i as int].0@ != orig[oi].0@);
                        }
                    }
                    let n = self.pending_renames@;
                    assert forall|p: int, q: int|
                        #![trigger n[p].0, n[q].0]
                        0 <= p < q < n.len() implies n[p].0@ != n[q].0@ by {
                        crate::registry::lemma_seq_remove_index(orig, i as int, p);
                        crate::registry::lemma_seq_remove_index(orig, i as int, q);
                    }
                }
                return Some(entry.1);
            }
            i = i + 1;
        }
        proof {
            if old(self).spec_has_pending(path@) {
                let oi = old(self).spec_pending_idx(path@);
                assert(orig[oi].0@ != path@);
            }
        }
        None
    }

    /// Consume the oldest outstanding rename, whatever its source.
    fn take_oldest(&mut self) -> (r: Option<u32>)
        requires
            old(self).wf(),
        ensures
            final(self).wf(),
            final(self).cookie_counter == old(self).cookie_counter,
            old(self).pending_renames@.len() == 0 ==> (r is None && final(self).pending_renames@
                == old(self).pending_renames@),
            old(self).pending_renames@.len() > 0 ==> (r == Some(
                old(self).pending_renames@[0].1,
            ) && final(self).pending_renames@ == old(self).pending_renames@.subrange(
                1,
                old(self).pending_renames@.len() as int,
            )),
    {
        if self.pending_renames.len() == 0 {
            return None;
        }
        let entry = self.pending_renames.remove(0);
        proof {
            let orig = old(self).pending_renames@;
            assert(self.pending_renames@ =~= orig.subrange(1, orig.len() as int));
            let n = self.pending_renames@;
            assert forall|p: int, q: int|
                #![trigger n[p].0, n[q].0]
                0 <= p < q < n.len() implies n[p].0@ != n[q].0@ by {
                assert(n[p] == orig[p + 1] && n[q] == orig[q + 1]);
            }
        }
        Some(entry.1)
    }

    /// Stamp cookie `c` on a rename from `path`, replacing any entry the
    /// path already has.
    fn put_pending(&mut self, path: &Vec<u8>, c: u32)
        requires
            old(self).wf(),
        ensures
            final(self).wf(),
            final(self).cookie_counter == old(self).cookie_counter,
            final(self).spec_has_pending(path@),
            final(self).spec_pending_cookie(path@) == c,
            forall|q: Seq<u8>|
                q != path@ ==> #[trigger] final(self).spec_has_pending(q) == old(
                    self,
                ).spec_has_pending(q),
            forall|q: Seq<u8>|
                q != path@ && old(self).spec_has_pending(q)
                    ==> #[trigger] final(self).spec_pending_cookie(q) == old(
                    self,
                ).spec_pending_cookie(q),
            old(self).pending_renames@.len() == 0 ==> (final(self).pending_renames@.len() == 1
                && final(self).pending_renames@[0].0@ == path@
                && final(self).pending_renames@[0].1 == c),
    {
        let ghost s0 = *old(self);
        let dropped = self.take_pending(path);
        let ghost mid = *self;
        let entry = (copy_vec(path), c);
        self.pending_renames.push(entry);
        proof {
            let n = self.pending_renames@;
            let m = mid.pending_renames@;
            let last = n.len() - 1;
            assert(n[last].0@ == path@ && n[last].1 == c);
            assert(!mid.spec_has_pending(path@)) by {
                if s0.spec_has_pending(path@) {
                    let oi = s0.spec_pending_idx(path@);
                    if mid.spec_has_pending(path@) {
                        let k = mid.spec_pending_idx(path@);
                        assert(m[k].0@ == path@);
                        crate::registry::lemma_seq_remove_index(
                            s0.pending_renames@,
                            oi,
                            k,
                        );
                        let ok: int = if k < oi {
                            k
                        } else {
                            k + 1
                        };
                        assert(s0.pending_renames@[ok].0@ == path@);
                        assert(s0.pending_renames@[oi].0@ == s0.pending_renames@[ok].0@);
                        assert(ok == oi);
                    }
                }
            }
            assert forall|p: int, q: int|
                #![trigger n[p].0, n[q].0]
                0 <= p < q < n.len() implies n[p].0@ != n[q].0@ by {
                if q == last {
                    if n[p].0@ == path@ {
                        assert(mid.spec_has_pending(path@));
                    }
                }
            }
            assert(self.spec_has_pending(path@));
            assert(self.spec_pending_idx(path@) == last) by {
                let k = self.spec_pending_idx(path@);
                if k < last {
                    assert(mid.spec_has_pending(path@));
                }
            }
            assert forall|q: Seq<u8>| q != path@ implies #[trigger] self.spec_has_pending(q)
                == s0.spec_has_pending(q) by {
                if self.spec_has_pending(q) {
                    let k = self.spec_pending_idx(q);
                    assert(n[k].0@ == q);
                    assert(k != last);
                    assert(m[k].0@ == q);
                    if s0.spec_has_pending(path@) {
                        crate::registry::lemma_seq_remove_index(
                            s0.pending_renames@,
                            s0.spec_pending_idx(path@),
                            k,
                        );
                        let ok: int = if k < s0.spec_pending_idx(path@) {
                            k
                        } else {
                            k + 1
                        };
                        assert(s0.pending_renames@[ok].0@ == q);
                        assert(s0.spec_has_pending(q));
                    } else {
                        assert(s0.spec_has_pending(q));
                    }
                }
                if s0.spec_has_pending(q) {
                    let ok = s0.spec_pending_idx(q);
                    assert(s0.pending_renames@[ok].0@ == q);
                    if s0.spec_has_pending(path@) {
                        let oi = s0.spec_pending_idx(path@);
                        assert(ok != oi);
                        let k: int = if ok < oi {
                            ok
                        } else {
                            ok - 1
                        };
                        crate::registry::lemma_seq_remove_index(s0.pending_renames@, oi, k);
                        assert(m[k].0@ == q);
                        assert(n[k].0@ == q);
                    } else {
                        assert(m[ok].0@ == q);
                        assert(n[ok].0@ == q);
                    }
                    assert(self.spec_has_pending(q));
                }
            }
            assert forall|q: Seq<u8>|
                q != path@ && s0.spec_has_pending(q) implies #[trigger] self.spec_pending_cookie(
                q,
            ) == s0.spec_pending_cookie(q) by {
                let ok = s0.spec_pending_idx(q);
                assert(s0.pending_renames@[ok].0@ == q);
                let k: int = if s0.spec_has_pending(path@) {
                    let oi = s0.spec_pending_idx(path@);
                    if ok < oi {
                        ok
                    } else {
                        ok - 1
                    }
                } else {
                    ok
                };
                if s0.spec_has_pending(path@) {
                    crate::registry::lemma_seq_remove_index(
                        s0.pending_renames@,
                        s0.spec_pending_idx(path@),
                        k,
                    );
                }
                assert(n[k].0@ == q && n[k].1 == s0.pending_renames@[ok].1);
                let kk = self.spec_pending_idx(q);
                assert(n[kk].0@ == q);
                assert(kk == k) by {
                    if kk < k {
                        assert(n[kk].0@ != n[k].0@);
                    } else if kk > k {
                        assert(n[k].0@ != n[kk].0@);
                    }
                }
            }
        }
    }

    /// Turn one raw event into an encoded, framed record and the list of
    /// subscribers owed a copy; the caller performs the sends.
    ///
    /// The event is dropped — nothing returned, the dispatcher unchanged —
    /// when no watch is attributed to its path, when its classification
    /// has no inotify counterpart, or when the attributed watch's mask
    /// requests none of its bits.  Otherwise the record carries the
    /// watch's descriptor, the event's mask bits, the rename cookie, and
    /// the target's name relative to the watch root (no name when the
    /// target is the root itself).  A move-from stamps a fresh cookie and
    /// leaves it outstanding under its source path; a move-to consumes the
    /// cookie outstanding under its own path, or, failing that, the oldest
    /// outstanding one — pairing back-to-back halves whose paths differ —
    /// and only with nothing outstanding stamps a fresh cookie.
    pub fn handle_event(&mut self, state: &DaemonState, event: &WatcherEvent) -> (r: Option<
        (Vec<u8>, Vec<u64>),
    >)
        requires
            state.wf(),
            old(self).wf(),
            event.path@.len() + 24 <= u32::MAX,
        ensures
            final(self).wf(),
            ({
                let attributed = state.spec_find_watch(event.path@);
                let full = spec_event_mask(event.kind, event.is_dir);
                match r {
                    None => {
                        &&& *final(self) == *old(self)
                        &&& (attributed is None || full is None || !spec_mask_intersects(
                            attributed->Some_0.mask,
                            full->Some_0,
                        ))
                    },
                    Some((bytes, subscribers)) => {
                        let w = attributed->Some_0;
                        let m = full->Some_0;
                        let cookie = spec_cookie_choice(*old(self), m, event.path@);
                        &&& attributed is Some
                        &&& full is Some
                        &&& spec_mask_intersects(w.mask, m)
                        &&& subscribers@ == state.spec_watch(w.wd).clients@
                        &&& spec_dispatcher_step(*old(self), *final(self), m, event.path@)
                        &&& bytes@ == spec_frame_bytes(
                            match spec_relative_name(w.path@, event.path@) {
                                None => spec_header_bytes(
                                    InotifyEvent { wd: w.wd, mask: m, cookie, len: 0u32 },
                                ),
                                Some(name) => spec_record_bytes(w.wd, m, cookie, name),
                            },
                        )
                    },
                }
            }),
    {
        let watch = match state.find_watch_for_path(&event.path) {
            None => {
                return None;
            },
            Some(w) => w,
        };
        let m = match notify_to_inotify_mask(&event.kind, event.is_dir) {
            None => {
                return None;
            },
            Some(mm) => mm,
        };
        if !crate::mask::mask_intersects(watch.mask, m) {
            return None;
        }
        let cookie: u32;
        if crate::mask::mask_intersects(m, IN_MOVED_FROM) {
            let c = self.next_cookie();
            self.put_pending(&event.path, c);
            cookie = c;
        } else if crate::mask::mask_intersects(m, IN_MOVED_TO) {
            cookie = match self.take_pending(&event.path) {
                Some(c) => c,
                None => match self.take_oldest() {
                    Some(c) => c,
                    None => self.next_cookie(),
                },
            };
        } else {
            cookie = 0;
        }
        proof {
            crate::registry::lemma_found_watch_live(*state, event.path@);
        }
        let subscribers = state.get_clients_for_watch(watch.wd);
        let record = match crate::paths::relative_name(&watch.path, &event.path) {
            Some(name) => {
                let header = InotifyEvent::new(watch.wd, m, cookie);
                header.to_bytes_with_name(name.as_slice())
            },
            None => {
                let header = InotifyEvent::new(watch.wd, m, cookie);
                header.header_to_bytes()
            },
        };
        let framed = FramedMessage::frame(record.as_slice());
        Some((framed, subscribers))
    }
}

/// The cookie an event's record carries, as decided against the
/// dispatcher state the event meets: a move-from takes the counter's next
/// value; a move-to takes the cookie outstanding under its path, else the
/// oldest outstanding one, else the counter's next value; everything else
/// carries 0.
pub open spec fn spec_cookie_choice(d: EventDispatcher, m: u32, path: Seq<u8>) -> u32 {
    if m & IN_MOVED_FROM != 0 {
        d.cookie_counter
    } else if m & IN_MOVED_TO != 0 {
        if d.spec_has_pending(path) {
            d.spec_pending_cookie(path)
        } else if d.pending_renames@.len() > 0 {
            d.pending_renames@[0].1
        } else {
            d.cookie_counter
        }
    } else {
        0
    }
}

/// How one dispatched event takes the dispatcher from `d0` to `d1`: a
/// move-from leaves its cookie outstanding under its source path and
/// advances the counter; a move-to consumes one outstanding entry, or
/// advances the counter when none is outstanding; other events change
/// nothing.
pub open spec fn spec_dispatcher_step(
    d0: EventDispatcher,
    d1: EventDispatcher,
    m: u32,
    path: Seq<u8>,
) -> bool {
    if m & IN_MOVED_FROM != 0 {
        &&& d1.cookie_counter == spec_wrap_inc(d0.cookie_counter)
        &&& d1.spec_has_pending(path)
        &&& d1.spec_pending_cookie(path) == d0.cookie_counter
        &&& (forall|q: Seq<u8>|
            q != path ==> #[trigger] d1.spec_has_pending(q) == d0.spec_has_pending(q))
        &&& (forall|q: Seq<u8>|
            q != path && d0.spec_has_pending(q) ==> #[trigger] d1.spec_pending_cookie(q)
                == d0.spec_pending_cookie(q))
        &&& (d0.pending_renames@.len() == 0 ==> d1.pending_renames@.len() == 1)
    } else if m & IN_MOVED_TO != 0 {
        if d0.spec_has_pending(path) {
            &&& d1.cookie_counter == d0.cookie_counter
            &&& d1.pending_renames@ == d0.pending_renames@.remove(d0.spec_pending_idx(path))
        } else if d0.pending_renames@.len() > 0 {
            &&& d1.cookie_counter == d0.cookie_counter
            &&& d1.pending_renames@ == d0.pending_renames@.subrange(
                1,
                d0.pending_renames@.len() as int,
            )
        } else {
            &&& d1.cookie_counter == spec_wrap_inc(d0.cookie_counter)
            &&& d1.pending_renames@ == d0.pending_renames@
        }
    } else {
        d1 == d0
    }
}

/// Rename pairing: starting with no outstanding renames and a non-zero
/// counter, the record for a move-from at `x` and the record for the
/// move-to that follows it carry the same non-zero cookie, whatever
/// destination path `y` the move-to names.
pub proof fn lemma_rename_pairing(
    d0: EventDispatcher,
    d1: EventDispatcher,
    x: Seq<u8>,
    y: Seq<u8>,
    mf: u32,
    mt: u32,
)
    requires
        d1.wf(),
        d0.pending_renames@.len() == 0,
        d0.cookie_counter >= 1,
        mf & IN_MOVED_FROM != 0,
        mt & IN_MOVED_FROM == 0,
        mt & IN_MOVED_TO != 0,
        spec_dispatcher_step(d0, d1, mf, x),
    ensures
        spec_cookie_choice(d1, mt, y) == spec_cookie_choice(d0, mf, x),
        spec_cookie_choice(d0, mf, x) != 0,
{
    let c = d0.cookie_counter;
    assert(d1.spec_has_pending(x) && d1.spec_pending_cookie(x) == c);
    if y == x {
    } else {
        assert(d1.spec_has_pending(y) == d0.spec_has_pending(y));
        assert(!d0.spec_has_pending(y));
        assert(d1.pending_renames@.len() > 0) by {
            let i = d1.spec_pending_idx(x);
            assert(0 <= i < d1.pending_renames@.len());
        }
        // The sole outstanding entry is the move-from at `x`.
        let i = d1.spec_pending_idx(x);
        assert(d1.pending_renames@[i].0@ == x && d1.pending_renames@[i].1 == c);
        assert(i == 0) by {
            if i != 0 {
                let q = d1.pending_renames@[0].0@;
                assert(d1.spec_has_pending(q));
                assert(q != x) by {
                    assert(d1.pending_renames@[0].0@ != d1.pending_renames@[i].0@);
                }
                assert(!d0.spec_has_pending(q));
            }
        }
    }
}

} // verus!
