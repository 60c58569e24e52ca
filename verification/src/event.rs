//! Binary codec for the kernel-compatible inotify event record.
//!
//! A record is a 16-byte header followed by an optional name trailer:
//!
//! ```text
//! offset  size  field
//!   0      4    wd      (signed 32-bit)
//!   4      4    mask    (unsigned 32-bit)
//!   8      4    cookie  (unsigned 32-bit)
//!  12      4    len     (unsigned 32-bit, bytes of trailer)
//!  16     len   name    (NUL-terminated, zero-padded to a 4-byte boundary)
//! ```
//!
//! Integer fields use the byte order of the host the record is read on; the
//! supported hosts are little-endian, which is what this codec writes.  A
//! record without a name has `len == 0` and no trailer.

use crate::mask::KNOWN_MASK_BITS;
use vstd::bytes::{
    lemma_auto_spec_u32_to_from_le_bytes, spec_u32_from_le_bytes, spec_u32_to_le_bytes,
    u32_from_le_bytes, u32_to_le_bytes,
};
use vstd::prelude::*;
use vstd::slice::{slice_index_get, slice_subrange};

verus! {

/// Size in bytes of the fixed portion of an encoded record.
pub const HEADER_SIZE: usize = 16;

/// Header of one inotify event record.
#[derive(Debug, Clone, Copy, PartialEq, Eq, Structural)]
pub struct InotifyEvent {
    /// Watch descriptor the event belongs to.
    pub wd: i32,
    /// Event mask bits.
    pub mask: u32,
    /// Cookie associating related events (rename pairs); 0 otherwise.
    pub cookie: u32,
    /// Length in bytes of the name trailer that follows the header.
    pub len: u32,
}

/// Length of the name trailer for a name of `n` bytes: the name, its NUL
/// terminator, and zero padding up to the next 4-byte boundary.
pub open spec fn spec_padded_name_len(n: nat) -> nat {
    ((n + 4) / 4) * 4
}

/// The 16 header bytes of `e`, little-endian fields in record order.
pub open spec fn spec_header_bytes(e: InotifyEvent) -> Seq<u8> {
    spec_u32_to_le_bytes(e.wd as u32) + spec_u32_to_le_bytes(e.mask)
        + spec_u32_to_le_bytes(e.cookie) + spec_u32_to_le_bytes(e.len)
}

/// The header parsed back out of the first 16 bytes of `s`.
pub open spec fn spec_decode_header(s: Seq<u8>) -> InotifyEvent {
    InotifyEvent {
        wd: spec_u32_from_le_bytes(s.subrange(0, 4)) as i32,
        mask: spec_u32_from_le_bytes(s.subrange(4, 8)),
        cookie: spec_u32_from_le_bytes(s.subrange(8, 12)),
        len: spec_u32_from_le_bytes(s.subrange(12, 16)),
    }
}

/// A full record carrying `name`: header whose `len` field is the padded
/// trailer length, then the name, a NUL, and zero padding.
pub open spec fn spec_record_bytes(wd: i32, mask: u32, cookie: u32, name: Seq<u8>) -> Seq<u8> {
    let padded = spec_padded_name_len(name.len());
    let header = InotifyEvent { wd, mask, cookie, len: padded as u32 };
    spec_header_bytes(header) + name + Seq::new((padded - name.len()) as nat, |i: int| 0u8)
}

impl InotifyEvent {
    /// A record header with no name trailer.
    pub fn new(wd: i32, mask: u32, cookie: u32) -> (r: Self)
        ensures
            r == (InotifyEvent { wd, mask, cookie, len: 0u32 }),
    {
        InotifyEvent { wd, mask, cookie, len: 0 }
    }

    /// A record header announcing a trailer of `name_len` bytes.
    pub fn with_name_len(wd: i32, mask: u32, cookie: u32, name_len: u32) -> (r: Self)
        ensures
            r == (InotifyEvent { wd, mask, cookie, len: name_len }),
    {
        InotifyEvent { wd, mask, cookie, len: name_len }
    }

    /// Total encoded size of this record, header plus trailer.
    pub fn total_size(&self) -> (r: usize)
        requires
            HEADER_SIZE + self.len <= usize::MAX,
        ensures
            r == HEADER_SIZE + self.len,
    {
        HEADER_SIZE + self.len as usize
    }

    /// The 16 header bytes of this record.
    pub fn header_to_bytes(&self) -> (r: Vec<u8>)
        ensures
            r@ == spec_header_bytes(*self),
            r@.len() == HEADER_SIZE,
    {
        proof {
            lemma_auto_spec_u32_to_from_le_bytes();
        }
        let mut buf = u32_to_le_bytes(self.wd as u32);
        let mut mask_bytes = u32_to_le_bytes(self.mask);
        let mut cookie_bytes = u32_to_le_bytes(self.cookie);
        let mut len_bytes = u32_to_le_bytes(self.len);
        buf.append(&mut mask_bytes);
        buf.append(&mut cookie_bytes);
        buf.append(&mut len_bytes);
        buf
    }

    /// Encode this record's `wd`, `mask` and `cookie` together with `name`:
    /// the header's `len` field becomes the padded trailer length, and the
    /// trailer is the name, a NUL byte, and zero padding to a 4-byte
    /// boundary.
    pub fn to_bytes_with_name(&self, name: &[u8]) -> (r: Vec<u8>)
        requires
            name@.len() + 4 <= u32::MAX,
        ensures
            r@ == spec_record_bytes(self.wd, self.mask, self.cookie, name@),
            r@.len() == HEADER_SIZE + spec_padded_name_len(name@.len()),
    {
        let name_len_with_null = name.len() + 1;
        let padded_len = (name_len_with_null + 3) / 4 * 4;
        let header = InotifyEvent {
            wd: self.wd,
            mask: self.mask,
            cookie: self.cookie,
            len: padded_len as u32,
        };
        let mut buf = header.header_to_bytes();
        let mut i: usize = 0;
        while i < name.len()
            invariant
                i <= name@.len(),
                name@.len() + 4 <= u32::MAX,
                buf@ == spec_header_bytes(header) + name@.subrange(0, i as int),
            decreases name@.len() - i,
        {
            buf.push(*slice_index_get(name, i));
            assert(buf@ =~= spec_header_bytes(header) + name@.subrange(0, i + 1));
            i = i + 1;
        }
        assert(name@.subrange(0, name@.len() as int) =~= name@);
        let mut j: usize = name.len();
        while j < padded_len
            invariant
                name@.len() <= j <= padded_len,
                padded_len == spec_padded_name_len(name@.len()),
                name@.len() + 4 <= u32::MAX,
                buf@ == spec_header_bytes(header) + name@
                    + Seq::new((j - name@.len()) as nat, |k: int| 0u8),
            decreases padded_len - j,
        {
            buf.push(0u8);
            assert(buf@ =~= spec_header_bytes(header) + name@
                + Seq::new((j + 1 - name@.len()) as nat, |k: int| 0u8));
            j = j + 1;
        }
        buf
    }

    /// Parse a record header from the front of `buf`.  Fails exactly when
    /// fewer than 16 bytes are available.
    pub fn from_bytes(buf: &[u8]) -> (r: Option<Self>)
        ensures
            buf@.len() < HEADER_SIZE ==> r is None,
            buf@.len() >= HEADER_SIZE ==> r == Some(spec_decode_header(buf@)),
    {
        if buf.len() < HEADER_SIZE {
            return None;
        }
        let wd_field = u32_from_le_bytes(slice_subrange(buf, 0, 4));
        let mask = u32_from_le_bytes(slice_subrange(buf, 4, 8));
        let cookie = u32_from_le_bytes(slice_subrange(buf, 8, 12));
        let len = u32_from_le_bytes(slice_subrange(buf, 12, 16));
        Some(InotifyEvent { wd: wd_field as i32, mask, cookie, len })
    }

    /// This record's mask restricted to the bits the protocol defines.
    pub fn event_mask(&self) -> (r: u32)
        ensures
            r == self.mask & KNOWN_MASK_BITS,
    {
        self.mask & KNOWN_MASK_BITS
    }
}

/// Total encoded size of a record carrying a name of `name_len` bytes:
/// header plus NUL-terminated, 4-byte-padded trailer.
pub fn event_size_with_name(name_len: usize) -> (r: usize)
    requires
        name_len + 4 <= usize::MAX - HEADER_SIZE,
    ensures
        r == HEADER_SIZE + spec_padded_name_len(name_len as nat),
{
    let name_len_with_null = name_len + 1;
    let padded_len = (name_len_with_null + 3) / 4 * 4;
    HEADER_SIZE + padded_len
}

/// A name-less record round-trips: its 16 header bytes decode to the header
/// that was encoded.
pub proof fn lemma_header_round_trip(e: InotifyEvent)
    ensures
        spec_header_bytes(e).len() == HEADER_SIZE,
        spec_decode_header(spec_header_bytes(e)) == e,
{
    lemma_auto_spec_u32_to_from_le_bytes();
    let s = spec_header_bytes(e);
    assert(s.subrange(0, 4) =~= spec_u32_to_le_bytes(e.wd as u32));
    assert(s.subrange(4, 8) =~= spec_u32_to_le_bytes(e.mask));
    assert(s.subrange(8, 12) =~= spec_u32_to_le_bytes(e.cookie));
    assert(s.subrange(12, 16) =~= spec_u32_to_le_bytes(e.len));
    let w = e.wd;
    assert((w as u32) as i32 == w) by (bit_vector);
}

/// Decoding an encoded record recovers what was encoded: the header fields
/// come back unchanged, `len` is the padded trailer length, the name is the
/// first `name.len()` trailer bytes, and the total size is
/// `16 + ((|name| + 4) & !3)`.
pub proof fn lemma_record_round_trip(wd: i32, mask: u32, cookie: u32, name: Seq<u8>)
    requires
        name.len() + 4 <= u32::MAX,
    ensures
        ({
            let enc = spec_record_bytes(wd, mask, cookie, name);
            let padded = spec_padded_name_len(name.len());
            &&& enc.len() == HEADER_SIZE + padded
            &&& spec_decode_header(enc) == (InotifyEvent { wd, mask, cookie, len: padded as u32 })
            &&& enc.subrange(HEADER_SIZE as int, HEADER_SIZE + name.len()) == name
        }),
{
    let padded = spec_padded_name_len(name.len());
    let header = InotifyEvent { wd, mask, cookie, len: padded as u32 };
    let enc = spec_record_bytes(wd, mask, cookie, name);
    lemma_header_round_trip(header);
    assert(enc.subrange(0, 4) =~= spec_header_bytes(header).subrange(0, 4));
    assert(enc.subrange(4, 8) =~= spec_header_bytes(header).subrange(4, 8));
    assert(enc.subrange(8, 12) =~= spec_header_bytes(header).subrange(8, 12));
    assert(enc.subrange(12, 16) =~= spec_header_bytes(header).subrange(12, 16));
    assert(enc.subrange(HEADER_SIZE as int, HEADER_SIZE + name.len()) =~= name);
}

} // verus!
