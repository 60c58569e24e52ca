//! Core of a user-space inotify emulation for filesystems that the kernel's
//! inotify cannot observe (network mounts watched by polling).
//!
//! A daemon process keeps a registry of watched paths and connected clients,
//! turns change notifications from a polling engine into kernel-compatible
//! binary inotify records, and fans them out over a Unix-domain socket.  A
//! small interposition layer inside client processes redirects the inotify
//! entry points onto that socket.
//!
//! This crate holds the verified logic of both sides: the mask constants, the
//! binary event-record codec, the length-prefixed framing, the request and
//! response message codec, the watch/client registry with its lifecycle
//! invariants, the event dispatcher (classification, rename-cookie pairing,
//! name relativisation), the per-client outbound queue, and the pure decision
//! functions of the interposition layer.  Process plumbing (sockets, signals,
//! polling, symbol resolution) lives with the callers and hands this crate
//! plain values.
//!
//! Paths are byte strings throughout, as the operating system presents them.

use vstd::prelude::*;

pub mod cli;
pub mod config;
pub mod dispatch;
pub mod event;
pub mod frame;
pub mod mask;
pub mod message;
pub mod paths;
pub mod preload;
pub mod queue;
pub mod registry;
pub mod server;
pub mod socket;

pub use event::event_size_with_name;
pub use event::InotifyEvent;
pub use frame::FramedMessage;
pub use message::ProtocolError;
pub use message::Request;
pub use message::Response;
pub use socket::get_socket_path;
pub use socket::get_socket_path_with_xdg_fallback;
pub use socket::DEFAULT_SOCKET_PATH;
pub use socket::SOCKET_ENV_VAR;

verus! {

/// Wire-protocol version, for compatibility checking between the two
/// endpoints.  Incremented on breaking changes to the wire format.
pub const PROTOCOL_VERSION: u32 = 1;

} // verus!
