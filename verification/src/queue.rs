//! Bounded per-client outbound queue with drop-oldest backpressure.
//!
//! A slow reader must not stall the fan-out to everybody else, so each
//! client's outgoing frames wait in a queue of fixed capacity.  When a
//! frame arrives at a full queue the oldest waiting frame is dropped and
//! the loss is remembered; the next successful take hands out a framed
//! `IN_Q_OVERFLOW` record (descriptor -1, cookie 0, no name) before any
//! further frame, telling the client that events were lost.

use crate::event::{spec_header_bytes, InotifyEvent};
use crate::frame::{spec_frame_bytes, FramedMessage};
use crate::mask::IN_Q_OVERFLOW;
use vstd::prelude::*;

verus! {

/// The framed record that reports a queue overflow.
pub open spec fn spec_overflow_frame() -> Seq<u8> {
    spec_frame_bytes(
        spec_header_bytes(
            InotifyEvent { wd: -1i32, mask: IN_Q_OVERFLOW, cookie: 0u32, len: 0u32 },
        ),
    )
}

/// One client's outbound queue: the waiting frames, oldest first, its
/// fixed capacity, and whether a loss is still to be reported.
pub struct ClientQueue {
    /// Frames waiting to be written, oldest first.
    pub frames: Vec<Vec<u8>>,
    /// Most frames that wait at once.
    pub capacity: usize,
    /// A dropped frame has not been reported yet.
    pub overflowed: bool,
}

impl ClientQueue {
    /// The queue respects its capacity.
    pub open spec fn wf(self) -> bool {
        &&& self.capacity >= 1
        &&& self.frames@.len() <= self.capacity
    }

    /// An empty queue for `capacity` frames.
    pub fn new(capacity: usize) -> (r: ClientQueue)
        requires
            capacity >= 1,
        ensures
            r.wf(),
            r.frames@.len() == 0,
            r.capacity == capacity,
            !r.overflowed,
    {
        ClientQueue { frames: Vec::new(), capacity, overflowed: false }
    }

    /// Queue `frame`.  At capacity, the oldest waiting frame is dropped
    /// to make room and the loss is remembered.
    pub fn push(&mut self, frame: Vec<u8>)
        requires
            old(self).wf(),
        ensures
            final(self).wf(),
            final(self).capacity == old(self).capacity,
            old(self).frames@.len() < old(self).capacity ==> {
                &&& final(self).frames@ == old(self).frames@.push(frame)
                &&& final(self).overflowed == old(self).overflowed
            },
            old(self).frames@.len() == old(self).capacity ==> {
                &&& final(self).frames@ == old(self).frames@.subrange(
                    1,
                    old(self).frames@.len() as int,
                ).push(frame)
                &&& final(self).overflowed
            },
    {
        if self.frames.len() == self.capacity {
            self.frames.remove(0);
            self.overflowed = true;
            proof {
                assert(self.frames@ =~= old(self).frames@.subrange(
                    1,
                    old(self).frames@.len() as int,
                ));
            }
        }
        self.frames.push(frame);
    }

    /// Take the next frame owed to the client: first the overflow report,
    /// when one is due; then the oldest waiting frame; nothing when the
    /// queue is idle.
    pub fn pop(&mut self) -> (r: Option<Vec<u8>>)
        requires
            old(self).wf(),
        ensures
            final(self).wf(),
            final(self).capacity == old(self).capacity,
            old(self).overflowed ==> (r matches Some(b) && b@ == spec_overflow_frame() && !final(self).overflowed && final(self).frames@ == old(self).frames@),
            !old(self).overflowed ==> final(self).overflowed == old(self).overflowed
                && (old(self).frames@.len() == 0 ==> (r is None && final(self).frames@ == old(self).frames@)) && (old(self).frames@.len() > 0 ==> (r == Some(old(self).frames@[0])
                && final(self).frames@ == old(self).frames@.subrange(
                1,
                old(self).frames@.len() as int,
            ))),
    {
        if self.overflowed {
            self.overflowed = false;
            let record = InotifyEvent::new(-1, IN_Q_OVERFLOW, 0);
            let bytes = record.header_to_bytes();
            let framed = FramedMessage::frame(bytes.as_slice());
            return Some(framed);
        }
        if self.frames.len() == 0 {
            return None;
        }
        let frame = self.frames.remove(0);
        proof {
            assert(self.frames@ =~= old(self).frames@.subrange(
                1,
                old(self).frames@.len() as int,
            ));
        }
        Some(frame)
    }
}

} // verus!
