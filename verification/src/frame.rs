//! Length-prefixed framing for the client-daemon socket.
//!
//! Every payload travelling on the socket — a request, a response, or an
//! encoded event record — is preceded by its length as a 4-byte
//! little-endian unsigned integer.  A peer that reads an advertised length
//! above [`MAX_FRAME_SIZE`] must treat the stream as broken and close it.

use vstd::bytes::{
    lemma_auto_spec_u32_to_from_le_bytes, spec_u32_from_le_bytes, spec_u32_to_le_bytes,
    u32_from_le_bytes, u32_to_le_bytes,
};
use vstd::prelude::*;
use vstd::slice::slice_subrange;

verus! {

/// The framing envelope: a 4-byte little-endian length, then the payload.
#[derive(Debug, Clone)]
pub struct FramedMessage;

/// Largest payload a peer may advertise or send: 1 MiB.
pub const MAX_FRAME_SIZE: usize = 1024 * 1024;

/// The frame produced for `payload`: its length prefix followed by it.
pub open spec fn spec_frame_bytes(payload: Seq<u8>) -> Seq<u8> {
    spec_u32_to_le_bytes(payload.len() as u32) + payload
}

impl FramedMessage {
    /// Wrap `payload` in a framing envelope.
    pub fn frame(payload: &[u8]) -> (r: Vec<u8>)
        requires
            payload@.len() <= u32::MAX,
        ensures
            r@ == spec_frame_bytes(payload@),
            r@.len() == 4 + payload@.len(),
    {
        proof {
            lemma_auto_spec_u32_to_from_le_bytes();
        }
        let len = payload.len() as u32;
        let mut buf = u32_to_le_bytes(len);
        let mut rest = vstd::slice::slice_to_vec(payload);
        buf.append(&mut rest);
        buf
    }

    /// Read the length prefix from the front of `buf`.  Fails exactly when
    /// fewer than 4 bytes are available.
    pub fn read_length(buf: &[u8]) -> (r: Option<u32>)
        ensures
            buf@.len() < 4 ==> r is None,
            buf@.len() >= 4 ==> r == Some(spec_u32_from_le_bytes(buf@.subrange(0, 4))),
    {
        if buf.len() < 4 {
            return None;
        }
        Some(u32_from_le_bytes(slice_subrange(buf, 0, 4)))
    }

    /// Whether an advertised payload length is acceptable; a peer must
    /// close the connection on a frame above the limit.
    pub fn length_acceptable(len: u32) -> (r: bool)
        ensures
            r == (len <= MAX_FRAME_SIZE),
    {
        len as usize <= MAX_FRAME_SIZE
    }
}

/// Framing round-trips: the length prefix of a frame reads back as the
/// payload's length, and the payload follows it unchanged.
pub proof fn lemma_frame_round_trip(payload: Seq<u8>)
    requires
        payload.len() <= u32::MAX,
    ensures
        ({
            let f = spec_frame_bytes(payload);
            &&& f.len() == 4 + payload.len()
            &&& spec_u32_from_le_bytes(f.subrange(0, 4)) == payload.len()
            &&& f.subrange(4, f.len() as int) == payload
        }),
{
    lemma_auto_spec_u32_to_from_le_bytes();
    let f = spec_frame_bytes(payload);
    assert(f.subrange(0, 4) =~= spec_u32_to_le_bytes(payload.len() as u32));
    assert(f.subrange(4, f.len() as int) =~= payload);
}

} // verus!
