//! The daemon's request handling: one client request against the
//! registry, one response back.
//!
//! The socket loop around this lives with the caller: it reads frames,
//! decodes them into [`Request`] values, resolves whether an add-watch
//! target exists on the filesystem, and writes the framed response back.

use crate::mask::KNOWN_MASK_BITS;
use crate::message::{Request, Response};
use crate::registry::DaemonState;
use vstd::prelude::*;
use vstd::string::StrSliceExecFns;

verus! {

/// Decide and apply the daemon's answer to one request from the client
/// with id `client_id`.  `path_exists` reports whether the target of an
/// add-watch request exists on the filesystem; the caller resolves it and
/// it is ignored for every other request.
///
/// Registration is answered with the caller's existing id (the connection
/// was registered when it was accepted); a ping with a pong.  An
/// add-watch on an existing path subscribes the client — sharing and
/// widening a live watch on the same path, or creating a recursive one —
/// and answers with the watch descriptor; one on a missing path is
/// refused.  A remove-watch drops the subscription exactly when the
/// descriptor is live, else it is refused.  Refusals leave the registry
/// unchanged.
pub fn handle_request(
    state: &mut DaemonState,
    client_id: u64,
    request: Request,
    path_exists: bool,
) -> (r: Response)
    requires
        old(state).wf(),
        old(state).spec_has_client(client_id),
        old(state).next_wd < i32::MAX,
    ensures
        final(state).wf(),
        final(state).spec_has_client(client_id),
        final(state).next_client_id == old(state).next_client_id,
        match request {
            Request::RegisterClient => r == (Response::ClientRegistered { client_id })
                && *final(state) == *old(state),
            Request::Ping => r == Response::Pong && *final(state) == *old(state),
            Request::AddWatch { path, mask } => {
                &&& !path_exists ==> (r is Error && *final(state) == *old(state))
                &&& path_exists ==> (r matches Response::WatchAdded { wd } && {
                    &&& final(state).spec_has_watch(wd)
                    &&& final(state).spec_watch(wd).clients@.contains(client_id)
                    &&& final(state).spec_client(client_id).watches@.contains(wd)
                    &&& old(state).spec_has_path(path@) ==> (wd == old(state).spec_watch_by_path(
                        path@,
                    ).wd && final(state).spec_watch(wd).mask == (old(state).spec_watch_by_path(
                        path@,
                    ).mask | (mask & KNOWN_MASK_BITS)) && final(state).spec_watch(wd).recursive
                        == old(state).spec_watch_by_path(path@).recursive)
                    &&& !old(state).spec_has_path(path@) ==> (wd == old(state).next_wd && final(state).spec_watch(wd).path@ == path@ && final(state).spec_watch(wd).mask == (mask
                        & KNOWN_MASK_BITS) && final(state).spec_watch(wd).recursive)
                })
            },
            Request::RemoveWatch { wd } => {
                &&& old(state).spec_has_watch(wd) ==> (r == Response::WatchRemoved && !final(state).spec_client(client_id).watches@.contains(wd))
                &&& !old(state).spec_has_watch(wd) ==> (r is Error && *final(state) == *old(state))
            },
        },
{
    match request {
        Request::RegisterClient => {
            // The connection was registered when it was accepted.
            Response::ClientRegistered { client_id }
        },
        Request::AddWatch { path, mask } => {
            if !path_exists {
                let mut message = "no such path: ".as_bytes_vec();
                let mut rest = crate::registry::copy_vec(&path);
                message.append(&mut rest);
                return Response::Error { message };
            }
            let event_mask = mask & KNOWN_MASK_BITS;
            let wd = state.add_watch(client_id, path, event_mask, true);
            Response::WatchAdded { wd }
        },
        Request::RemoveWatch { wd } => {
            if state.remove_watch(client_id, wd) {
                Response::WatchRemoved
            } else {
                let message = "unknown watch descriptor".as_bytes_vec();
                Response::Error { message }
            }
        },
        Request::Ping => Response::Pong,
    }
}

} // verus!
