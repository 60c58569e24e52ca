//! Tests of the per-client outbound queue and its backpressure policy.

use fakenotify::event::InotifyEvent;
use fakenotify::mask::IN_Q_OVERFLOW;
use fakenotify::queue::ClientQueue;

fn frame_number(i: u32) -> Vec<u8> {
    i.to_le_bytes().to_vec()
}

#[test]
fn test_queue_in_order_without_overflow() {
    let mut q = ClientQueue::new(16);
    for i in 0..10u32 {
        q.push(frame_number(i));
    }
    for i in 0..10u32 {
        assert_eq!(q.pop(), Some(frame_number(i)));
    }
    assert_eq!(q.pop(), None);
}

#[test]
fn test_backpressure_drop_oldest_and_overflow_record() {
    // One subscriber stops reading while 10,000 events arrive; another
    // keeps reading.  The reader sees all 10,000 in order; the stalled
    // one, once it resumes, first gets an IN_Q_OVERFLOW record, then the
    // newest events its queue kept.
    let capacity = 64usize;
    let mut stalled = ClientQueue::new(capacity);
    let mut reader = ClientQueue::new(capacity);

    let total = 10_000u32;
    let mut received: Vec<u32> = Vec::new();
    for i in 0..total {
        stalled.push(frame_number(i));
        reader.push(frame_number(i));
        // The healthy subscriber drains promptly and is unaffected by the
        // stalled one.
        if let Some(frame) = reader.pop() {
            received.push(u32::from_le_bytes(frame[..4].try_into().unwrap()));
        }
    }
    assert_eq!(received.len(), total as usize);
    for (i, v) in received.iter().enumerate() {
        assert_eq!(*v, i as u32);
    }

    // The stalled subscriber resumes: first the overflow report...
    let first = stalled.pop().unwrap();
    let expected_len = u32::from_le_bytes(first[0..4].try_into().unwrap());
    assert_eq!(expected_len, 16);
    let header = InotifyEvent::from_bytes(&first[4..]).unwrap();
    assert_eq!(header.wd, -1);
    assert_eq!(header.mask, IN_Q_OVERFLOW);
    assert_eq!(header.cookie, 0);
    assert_eq!(header.len, 0);

    // ... then the newest frames, in order, up to its capacity.
    let mut kept: Vec<u32> = Vec::new();
    while let Some(frame) = stalled.pop() {
        kept.push(u32::from_le_bytes(frame[..4].try_into().unwrap()));
    }
    assert_eq!(kept.len(), capacity);
    for (i, v) in kept.iter().enumerate() {
        assert_eq!(*v, total - capacity as u32 + i as u32);
    }
}

#[test]
fn test_overflow_reported_once() {
    let mut q = ClientQueue::new(1);
    q.push(frame_number(1));
    q.push(frame_number(2)); // drops frame 1
    let first = q.pop().unwrap();
    let header = InotifyEvent::from_bytes(&first[4..]).unwrap();
    assert_eq!(header.mask, IN_Q_OVERFLOW);
    assert_eq!(q.pop(), Some(frame_number(2)));
    assert_eq!(q.pop(), None);
}
