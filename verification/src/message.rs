//! Typed IPC messages between client and daemon, and their wire codec.
//!
//! Messages travel inside framing envelopes (see [`crate::frame`]).  The
//! encoding is a deterministic tagged binary form: one tag byte naming the
//! variant, then the variant's fields, integers little-endian and byte
//! strings length-prefixed.  Both endpoints ship together, so only
//! self-consistency matters; decoding consumes the whole buffer and rejects
//! anything else.
//!
//! Paths and error texts are byte strings, as the operating system presents
//! them.

use vstd::bytes::{
    lemma_auto_spec_u32_to_from_le_bytes, lemma_auto_spec_u64_to_from_le_bytes,
    spec_u32_from_le_bytes, spec_u32_to_le_bytes, spec_u64_from_le_bytes, spec_u64_to_le_bytes,
    u32_from_le_bytes, u32_to_le_bytes, u64_from_le_bytes, u64_to_le_bytes,
};
use vstd::prelude::*;
use vstd::slice::{slice_index_get, slice_subrange, slice_to_vec};

verus! {

/// Error of the message codec.
#[derive(Debug, Clone, Copy, PartialEq, Eq, Structural)]
pub enum ProtocolError {
    /// The bytes do not hold a well-formed message.
    InvalidMessage,
    /// A field is too large for its wire representation.
    Oversized,
}

/// Requests sent from a client to the daemon.
#[derive(Debug, Clone, PartialEq, Eq)]
pub enum Request {
    /// Register a new client connection; the daemon answers with a unique
    /// client id.
    RegisterClient,
    /// Subscribe the client to filesystem events on a path.
    AddWatch {
        /// Path to watch.
        path: Vec<u8>,
        /// Requested event mask bits.
        mask: u32,
    },
    /// Drop the client's subscription to a watch.
    RemoveWatch {
        /// Watch descriptor to remove.
        wd: i32,
    },
    /// Keepalive ping.
    Ping,
}

/// Responses sent from the daemon to a client.
#[derive(Debug, Clone, PartialEq, Eq)]
pub enum Response {
    /// Registration succeeded.
    ClientRegistered {
        /// Unique client identifier.
        client_id: u64,
    },
    /// Watch added.
    WatchAdded {
        /// Watch descriptor of the (possibly shared) watch.
        wd: i32,
    },
    /// Watch removed.
    WatchRemoved,
    /// The request failed.
    Error {
        /// Human-readable description.
        message: Vec<u8>,
    },
    /// Answer to a ping.
    Pong,
}

/// A request representable on the wire: its byte-string field fits the
/// 32-bit length prefix.
pub open spec fn spec_request_wf(r: Request) -> bool {
    match r {
        Request::AddWatch { path, mask } => path@.len() <= u32::MAX,
        _ => true,
    }
}

/// The wire bytes of a request.
pub open spec fn spec_request_bytes(r: Request) -> Seq<u8> {
    match r {
        Request::RegisterClient => seq![0u8],
        Request::AddWatch { path, mask } => seq![1u8]
            + spec_u32_to_le_bytes(path@.len() as u32) + path@ + spec_u32_to_le_bytes(mask),
        Request::RemoveWatch { wd } => seq![2u8] + spec_u32_to_le_bytes(wd as u32),
        Request::Ping => seq![3u8],
    }
}

/// A response representable on the wire.
pub open spec fn spec_response_wf(r: Response) -> bool {
    match r {
        Response::Error { message } => message@.len() <= u32::MAX,
        _ => true,
    }
}

/// The wire bytes of a response.
pub open spec fn spec_response_bytes(r: Response) -> Seq<u8> {
    match r {
        Response::ClientRegistered { client_id } => seq![0u8] + spec_u64_to_le_bytes(client_id),
        Response::WatchAdded { wd } => seq![1u8] + spec_u32_to_le_bytes(wd as u32),
        Response::WatchRemoved => seq![2u8],
        Response::Error { message } => seq![3u8]
            + spec_u32_to_le_bytes(message@.len() as u32) + message@,
        Response::Pong => seq![4u8],
    }
}

impl Request {
    /// Encode this request for the wire.
    pub fn to_bytes(&self) -> (r: Result<Vec<u8>, ProtocolError>)
        ensures
            spec_request_wf(*self) ==> (r matches Ok(b) && b@ == spec_request_bytes(*self)),
            !spec_request_wf(*self) ==> r is Err,
    {
        proof {
            lemma_auto_spec_u32_to_from_le_bytes();
        }
        match self {
            Request::RegisterClient => {
                let mut buf: Vec<u8> = Vec::new();
                buf.push(0u8);
                assert(buf@ =~= spec_request_bytes(*self));
                Ok(buf)
            },
            Request::AddWatch { path, mask } => {
                if path.len() > u32::MAX as usize {
                    return Err(ProtocolError::Oversized);
                }
                let mut buf: Vec<u8> = Vec::new();
                buf.push(1u8);
                let mut len_bytes = u32_to_le_bytes(path.len() as u32);
                buf.append(&mut len_bytes);
                let mut path_bytes = slice_to_vec(path.as_slice());
                buf.append(&mut path_bytes);
                let mut mask_bytes = u32_to_le_bytes(*mask);
                buf.append(&mut mask_bytes);
                assert(buf@ =~= spec_request_bytes(*self));
                Ok(buf)
            },
            Request::RemoveWatch { wd } => {
                let mut buf: Vec<u8> = Vec::new();
                buf.push(2u8);
                let mut wd_bytes = u32_to_le_bytes(*wd as u32);
                buf.append(&mut wd_bytes);
                assert(buf@ =~= spec_request_bytes(*self));
                Ok(buf)
            },
            Request::Ping => {
                let mut buf: Vec<u8> = Vec::new();
                buf.push(3u8);
                assert(buf@ =~= spec_request_bytes(*self));
                Ok(buf)
            },
        }
    }

    /// Decode a request from the wire.  Succeeds exactly on the encodings
    /// that [`spec_request_bytes`] produces, consuming the whole buffer.
    pub fn from_bytes(bytes: &[u8]) -> (r: Result<Self, ProtocolError>)
        ensures
            r matches Ok(req) ==> spec_request_wf(req) && spec_request_bytes(req) == bytes@,
            r is Err ==> forall|req: Request|
                spec_request_wf(req) ==> spec_request_bytes(req) != bytes@,
    {
        proof {
            lemma_auto_spec_u32_to_from_le_bytes();
        }
        if bytes.len() == 0 {
            proof {
                request_encodings_shape();
            }
            return Err(ProtocolError::InvalidMessage);
        }
        let tag = *slice_index_get(bytes, 0);
        proof {
            request_encodings_shape();
        }
        if tag == 0 && bytes.len() == 1 {
            assert(bytes@ =~= spec_request_bytes(Request::RegisterClient));
            Ok(Request::RegisterClient)
        } else if tag == 3 && bytes.len() == 1 {
            assert(bytes@ =~= spec_request_bytes(Request::Ping));
            Ok(Request::Ping)
        } else if tag == 2 && bytes.len() == 5 {
            let x = u32_from_le_bytes(slice_subrange(bytes, 1, 5));
            let wd = x as i32;
            proof {
                assert((x as i32) as u32 == x) by (bit_vector);
                assert(spec_request_bytes(Request::RemoveWatch { wd }) =~= bytes@) by {
                    assert(bytes@.subrange(1, 5) =~= spec_request_bytes(
                        Request::RemoveWatch { wd },
                    ).subrange(1, 5));
                }
            }
            Ok(Request::RemoveWatch { wd })
        } else if tag == 1 && bytes.len() >= 9 {
            let plen = u32_from_le_bytes(slice_subrange(bytes, 1, 5));
            if bytes.len() - 9 == plen as usize {
                let end = 5 + plen as usize;
                let path = slice_to_vec(slice_subrange(bytes, 5, end));
                let mask = u32_from_le_bytes(slice_subrange(bytes, end, end + 4));
                let req = Request::AddWatch { path, mask };
                proof {
                    assert(spec_request_bytes(req) =~= bytes@);
                }
                Ok(req)
            } else {
                proof {
                    lemma_no_request_matches(bytes@);
                }
                Err(ProtocolError::InvalidMessage)
            }
        } else {
            proof {
                lemma_no_request_matches(bytes@);
            }
            Err(ProtocolError::InvalidMessage)
        }
    }
}

/// Basic shape facts about request encodings: every encoding is non-empty,
/// its first byte is the variant's tag, and its length is determined as the
/// tag demands.
proof fn request_encodings_shape()
    ensures
        forall|req: Request| #![trigger spec_request_bytes(req)]
            {
                let enc = spec_request_bytes(req);
                &&& enc.len() >= 1
                &&& (req is RegisterClient ==> enc.len() == 1 && enc[0] == 0u8)
                &&& (req matches Request::AddWatch { path, mask } ==> enc.len() == 9 + path@.len() as int
                    && enc[0] == 1u8
                    && enc.subrange(1, 5) == spec_u32_to_le_bytes(path@.len() as u32)
                    && enc.subrange(5, 5 + path@.len() as int) == path@
                    && enc.subrange(5 + path@.len() as int, 9 + path@.len() as int)
                        == spec_u32_to_le_bytes(mask))
                &&& (req matches Request::RemoveWatch { wd } ==> enc.len() == 5 && enc[0] == 2u8
                    && enc.subrange(1, 5) == spec_u32_to_le_bytes(wd as u32))
                &&& (req is Ping ==> enc.len() == 1 && enc[0] == 3u8)
            },
{
    lemma_auto_spec_u32_to_from_le_bytes();
    assert forall|req: Request| #![trigger spec_request_bytes(req)]
        {
            let enc = spec_request_bytes(req);
            &&& enc.len() >= 1
            &&& (req is RegisterClient ==> enc.len() == 1 && enc[0] == 0u8)
            &&& (req matches Request::AddWatch { path, mask } ==> enc.len() == 9 + path@.len() as int
                && enc[0] == 1u8
                && enc.subrange(1, 5) == spec_u32_to_le_bytes(path@.len() as u32)
                && enc.subrange(5, 5 + path@.len() as int) == path@
                && enc.subrange(5 + path@.len() as int, 9 + path@.len() as int) == spec_u32_to_le_bytes(mask))
            &&& (req matches Request::RemoveWatch { wd } ==> enc.len() == 5 && enc[0] == 2u8
                && enc.subrange(1, 5) == spec_u32_to_le_bytes(wd as u32))
            &&& (req is Ping ==> enc.len() == 1 && enc[0] == 3u8)
        } by {
        let enc = spec_request_bytes(req);
        match req {
            Request::RegisterClient => {},
            Request::AddWatch { path, mask } => {
                assert(enc.subrange(1, 5) =~= spec_u32_to_le_bytes(path@.len() as u32));
                assert(enc.subrange(5, 5 + path@.len() as int) =~= path@);
                assert(enc.subrange(5 + path@.len() as int, 9 + path@.len() as int)
                    =~= spec_u32_to_le_bytes(mask));
            },
            Request::RemoveWatch { wd } => {
                assert(enc.subrange(1, 5) =~= spec_u32_to_le_bytes(wd as u32));
            },
            Request::Ping => {},
        }
    }
}

/// When `bytes` passes none of the decoder's accepting checks, no
/// well-formed request encodes to it.
proof fn lemma_no_request_matches(bytes: Seq<u8>)
    requires
        bytes.len() >= 1,
        !(bytes[0] == 0u8 && bytes.len() == 1),
        !(bytes[0] == 3u8 && bytes.len() == 1),
        !(bytes[0] == 2u8 && bytes.len() == 5),
        bytes[0] == 1u8 ==> !(bytes.len() >= 9
            && bytes.len() - 9 == spec_u32_from_le_bytes(bytes.subrange(1, 5))),
    ensures
        forall|req: Request| spec_request_wf(req) ==> spec_request_bytes(req) != bytes,
{
    lemma_auto_spec_u32_to_from_le_bytes();
    request_encodings_shape();
    assert forall|req: Request| spec_request_wf(req) implies spec_request_bytes(req)
        != bytes by {
        let enc = spec_request_bytes(req);
        if enc == bytes {
            match req {
                Request::RegisterClient => {},
                Request::AddWatch { path, mask } => {
                    assert(bytes.subrange(1, 5) == spec_u32_to_le_bytes(path@.len() as u32));
                    assert(spec_u32_from_le_bytes(bytes.subrange(1, 5))
                        == path@.len() as u32);
                },
                Request::RemoveWatch { wd } => {},
                Request::Ping => {},
            }
        }
    }
}

/// The request encoding is unambiguous: two well-formed requests with the
/// same wire bytes agree in variant and, field for field, in value.  With
/// the decoder's contract this says that decoding an encoding yields the
/// encoded request back.
pub proof fn lemma_request_bytes_injective(a: Request, b: Request)
    requires
        spec_request_wf(a),
        spec_request_wf(b),
        spec_request_bytes(a) == spec_request_bytes(b),
    ensures
        match (a, b) {
            (Request::RegisterClient, Request::RegisterClient) => true,
            (
                Request::AddWatch { path: p1, mask: m1 },
                Request::AddWatch { path: p2, mask: m2 },
            ) => p1@ == p2@ && m1 == m2,
            (Request::RemoveWatch { wd: w1 }, Request::RemoveWatch { wd: w2 }) => w1 == w2,
            (Request::Ping, Request::Ping) => true,
            _ => false,
        },
{
    lemma_auto_spec_u32_to_from_le_bytes();
    request_encodings_shape();
    let ea = spec_request_bytes(a);
    let eb = spec_request_bytes(b);
    match (a, b) {
        (Request::AddWatch { path: p1, mask: m1 }, Request::AddWatch { path: p2, mask: m2 }) => {
            assert(spec_u32_from_le_bytes(ea.subrange(1, 5)) == p1@.len() as u32);
            assert(spec_u32_from_le_bytes(eb.subrange(1, 5)) == p2@.len() as u32);
            assert(p1@.len() == p2@.len());
            assert(p1@ == ea.subrange(5, 5 + p1@.len() as int));
            assert(p2@ == eb.subrange(5, 5 + p2@.len() as int));
            assert(spec_u32_from_le_bytes(ea.subrange(5 + p1@.len() as int, 9 + p1@.len() as int)) == m1);
            assert(spec_u32_from_le_bytes(eb.subrange(5 + p2@.len() as int, 9 + p2@.len() as int)) == m2);
        },
        (Request::RemoveWatch { wd: w1 }, Request::RemoveWatch { wd: w2 }) => {
            assert(spec_u32_from_le_bytes(ea.subrange(1, 5)) == w1 as u32);
            assert(spec_u32_from_le_bytes(eb.subrange(1, 5)) == w2 as u32);
            assert(w1 as u32 == w2 as u32 ==> w1 == w2) by (bit_vector);
        },
        _ => {},
    }
}

impl Response {
    /// Encode this response for the wire.
    pub fn to_bytes(&self) -> (r: Result<Vec<u8>, ProtocolError>)
        ensures
            spec_response_wf(*self) ==> (r matches Ok(b) && b@ == spec_response_bytes(*self)),
            !spec_response_wf(*self) ==> r is Err,
    {
        proof {
            lemma_auto_spec_u32_to_from_le_bytes();
            lemma_auto_spec_u64_to_from_le_bytes();
        }
        match self {
            Response::ClientRegistered { client_id } => {
                let mut buf: Vec<u8> = Vec::new();
                buf.push(0u8);
                let mut id_bytes = u64_to_le_bytes(*client_id);
                buf.append(&mut id_bytes);
                assert(buf@ =~= spec_response_bytes(*self));
                Ok(buf)
            },
            Response::WatchAdded { wd } => {
                let mut buf: Vec<u8> = Vec::new();
                buf.push(1u8);
                let mut wd_bytes = u32_to_le_bytes(*wd as u32);
                buf.append(&mut wd_bytes);
                assert(buf@ =~= spec_response_bytes(*self));
                Ok(buf)
            },
            Response::WatchRemoved => {
                let mut buf: Vec<u8> = Vec::new();
                buf.push(2u8);
                assert(buf@ =~= spec_response_bytes(*self));
                Ok(buf)
            },
            Response::Error { message } => {
                if message.len() > u32::MAX as usize {
                    return Err(ProtocolError::Oversized);
                }
                let mut buf: Vec<u8> = Vec::new();
                buf.push(3u8);
                let mut len_bytes = u32_to_le_bytes(message.len() as u32);
                buf.append(&mut len_bytes);
                let mut msg_bytes = slice_to_vec(message.as_slice());
                buf.append(&mut msg_bytes);
                assert(buf@ =~= spec_response_bytes(*self));
                Ok(buf)
            },
            Response::Pong => {
                let mut buf: Vec<u8> = Vec::new();
                buf.push(4u8);
                assert(buf@ =~= spec_response_bytes(*self));
                Ok(buf)
            },
        }
    }

    /// Decode a response from the wire.  Succeeds exactly on the encodings
    /// that [`spec_response_bytes`] produces, consuming the whole buffer.
    pub fn from_bytes(bytes: &[u8]) -> (r: Result<Self, ProtocolError>)
        ensures
            r matches Ok(resp) ==> spec_response_wf(resp) && spec_response_bytes(resp) == bytes@,
            r is Err ==> forall|resp: Response|
                spec_response_wf(resp) ==> spec_response_bytes(resp) != bytes@,
    {
        proof {
            lemma_auto_spec_u32_to_from_le_bytes();
            lemma_auto_spec_u64_to_from_le_bytes();
        }
        if bytes.len() == 0 {
            proof {
                response_encodings_shape();
            }
            return Err(ProtocolError::InvalidMessage);
        }
        let tag = *slice_index_get(bytes, 0);
        proof {
            response_encodings_shape();
        }
        if tag == 2 && bytes.len() == 1 {
            assert(bytes@ =~= spec_response_bytes(Response::WatchRemoved));
            Ok(Response::WatchRemoved)
        } else if tag == 4 && bytes.len() == 1 {
            assert(bytes@ =~= spec_response_bytes(Response::Pong));
            Ok(Response::Pong)
        } else if tag == 0 && bytes.len() == 9 {
            let client_id = u64_from_le_bytes(slice_subrange(bytes, 1, 9));
            let resp = Response::ClientRegistered { client_id };
            proof {
                assert(spec_response_bytes(resp) =~= bytes@) by {
                    assert(bytes@.subrange(1, 9) =~= spec_response_bytes(resp).subrange(1, 9));
                }
            }
            Ok(resp)
        } else if tag == 1 && bytes.len() == 5 {
            let x = u32_from_le_bytes(slice_subrange(bytes, 1, 5));
            let wd = x as i32;
            proof {
                assert((x as i32) as u32 == x) by (bit_vector);
                assert(spec_response_bytes(Response::WatchAdded { wd }) =~= bytes@) by {
                    assert(bytes@.subrange(1, 5) =~= spec_response_bytes(
                        Response::WatchAdded { wd },
                    ).subrange(1, 5));
                }
            }
            Ok(Response::WatchAdded { wd })
        } else if tag == 3 && bytes.len() >= 5 {
            let mlen = u32_from_le_bytes(slice_subrange(bytes, 1, 5));
            if bytes.len() - 5 == mlen as usize {
                let end = 5 + mlen as usize;
                let message = slice_to_vec(slice_subrange(bytes, 5, end));
                let resp = Response::Error { message };
                proof {
                    assert(spec_response_bytes(resp) =~= bytes@);
                }
                Ok(resp)
            } else {
                proof {
                    lemma_no_response_matches(bytes@);
                }
                Err(ProtocolError::InvalidMessage)
            }
        } else {
            proof {
                lemma_no_response_matches(bytes@);
            }
            Err(ProtocolError::InvalidMessage)
        }
    }

    /// Build an error response carrying `message`.
    pub fn error(message: Vec<u8>) -> (r: Self)
        ensures
            r == (Response::Error { message }),
    {
        Response::Error { message }
    }
}

/// Basic shape facts about response encodings: every encoding is non-empty,
/// its first byte is the variant's tag, and its length is determined as the
/// tag demands.
proof fn response_encodings_shape()
    ensures
        forall|resp: Response| #![trigger spec_response_bytes(resp)]
            {
                let enc = spec_response_bytes(resp);
                &&& enc.len() >= 1
                &&& (resp matches Response::ClientRegistered { client_id } ==> enc.len() == 9
                    && enc[0] == 0u8
                    && enc.subrange(1, 9) == spec_u64_to_le_bytes(client_id))
                &&& (resp matches Response::WatchAdded { wd } ==> enc.len() == 5 && enc[0] == 1u8
                    && enc.subrange(1, 5) == spec_u32_to_le_bytes(wd as u32))
                &&& (resp is WatchRemoved ==> enc.len() == 1 && enc[0] == 2u8)
                &&& (resp matches Response::Error { message } ==> enc.len() == 5
                    + message@.len() as int && enc[0] == 3u8
                    && enc.subrange(1, 5) == spec_u32_to_le_bytes(message@.len() as u32)
                    && enc.subrange(5, 5 + message@.len() as int) == message@)
                &&& (resp is Pong ==> enc.len() == 1 && enc[0] == 4u8)
            },
{
    lemma_auto_spec_u32_to_from_le_bytes();
    lemma_auto_spec_u64_to_from_le_bytes();
    assert forall|resp: Response| #![trigger spec_response_bytes(resp)]
        {
            let enc = spec_response_bytes(resp);
            &&& enc.len() >= 1
            &&& (resp matches Response::ClientRegistered { client_id } ==> enc.len() == 9
                && enc[0] == 0u8
                && enc.subrange(1, 9) == spec_u64_to_le_bytes(client_id))
            &&& (resp matches Response::WatchAdded { wd } ==> enc.len() == 5 && enc[0] == 1u8
                && enc.subrange(1, 5) == spec_u32_to_le_bytes(wd as u32))
            &&& (resp is WatchRemoved ==> enc.len() == 1 && enc[0] == 2u8)
            &&& (resp matches Response::Error { message } ==> enc.len() == 5
                + message@.len() as int && enc[0] == 3u8
                && enc.subrange(1, 5) == spec_u32_to_le_bytes(message@.len() as u32)
                && enc.subrange(5, 5 + message@.len() as int) == message@)
            &&& (resp is Pong ==> enc.len() == 1 && enc[0] == 4u8)
        } by {
        let enc = spec_response_bytes(resp);
        match resp {
            Response::ClientRegistered { client_id } => {
                assert(enc.subrange(1, 9) =~= spec_u64_to_le_bytes(client_id));
            },
            Response::WatchAdded { wd } => {
                assert(enc.subrange(1, 5) =~= spec_u32_to_le_bytes(wd as u32));
            },
            Response::WatchRemoved => {},
            Response::Error { message } => {
                assert(enc.subrange(1, 5) =~= spec_u32_to_le_bytes(message@.len() as u32));
                assert(enc.subrange(5, 5 + message@.len() as int) =~= message@);
            },
            Response::Pong => {},
        }
    }
}

/// When `bytes` passes none of the decoder's accepting checks, no
/// well-formed response encodes to it.
proof fn lemma_no_response_matches(bytes: Seq<u8>)
    requires
        bytes.len() >= 1,
        !(bytes[0] == 2u8 && bytes.len() == 1),
        !(bytes[0] == 4u8 && bytes.len() == 1),
        !(bytes[0] == 0u8 && bytes.len() == 9),
        !(bytes[0] == 1u8 && bytes.len() == 5),
        bytes[0] == 3u8 ==> !(bytes.len() >= 5
            && bytes.len() - 5 == spec_u32_from_le_bytes(bytes.subrange(1, 5))),
    ensures
        forall|resp: Response| spec_response_wf(resp) ==> spec_response_bytes(resp) != bytes,
{
    lemma_auto_spec_u32_to_from_le_bytes();
    response_encodings_shape();
    assert forall|resp: Response| spec_response_wf(resp) implies spec_response_bytes(resp)
        != bytes by {
        let enc = spec_response_bytes(resp);
        if enc == bytes {
            match resp {
                Response::Error { message } => {
                    assert(bytes.subrange(1, 5) == spec_u32_to_le_bytes(message@.len() as u32));
                    assert(spec_u32_from_le_bytes(bytes.subrange(1, 5))
                        == message@.len() as u32);
                },
                _ => {},
            }
        }
    }
}

/// The response encoding is unambiguous: two well-formed responses with the
/// same wire bytes agree in variant and, field for field, in value.  With
/// the decoder's contract this says that decoding an encoding yields the
/// encoded response back.
pub proof fn lemma_response_bytes_injective(a: Response, b: Response)
    requires
        spec_response_wf(a),
        spec_response_wf(b),
        spec_response_bytes(a) == spec_response_bytes(b),
    ensures
        match (a, b) {
            (
                Response::ClientRegistered { client_id: c1 },
                Response::ClientRegistered { client_id: c2 },
            ) => c1 == c2,
            (Response::WatchAdded { wd: w1 }, Response::WatchAdded { wd: w2 }) => w1 == w2,
            (Response::WatchRemoved, Response::WatchRemoved) => true,
            (Response::Error { message: m1 }, Response::Error { message: m2 }) => m1@ == m2@,
            (Response::Pong, Response::Pong) => true,
            _ => false,
        },
{
    lemma_auto_spec_u32_to_from_le_bytes();
    lemma_auto_spec_u64_to_from_le_bytes();
    response_encodings_shape();
    let ea = spec_response_bytes(a);
    let eb = spec_response_bytes(b);
    match (a, b) {
        (
            Response::ClientRegistered { client_id: c1 },
            Response::ClientRegistered { client_id: c2 },
        ) => {
            assert(spec_u64_from_le_bytes(ea.subrange(1, 9)) == c1);
            assert(spec_u64_from_le_bytes(eb.subrange(1, 9)) == c2);
        },
        (Response::WatchAdded { wd: w1 }, Response::WatchAdded { wd: w2 }) => {
            assert(spec_u32_from_le_bytes(ea.subrange(1, 5)) == w1 as u32);
            assert(spec_u32_from_le_bytes(eb.subrange(1, 5)) == w2 as u32);
            assert(w1 as u32 == w2 as u32 ==> w1 == w2) by (bit_vector);
        },
        (Response::Error { message: m1 }, Response::Error { message: m2 }) => {
            assert(spec_u32_from_le_bytes(ea.subrange(1, 5)) == m1@.len() as u32);
            assert(spec_u32_from_le_bytes(eb.subrange(1, 5)) == m2@.len() as u32);
            assert(m1@.len() == m2@.len());
            assert(m1@ == ea.subrange(5, 5 + m1@.len() as int));
            assert(m2@ == eb.subrange(5, 5 + m2@.len() as int));
        },
        _ => {},
    }
}

} // verus!
