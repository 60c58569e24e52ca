//! Decision logic of the interposition layer.
//!
//! The layer is loaded into arbitrary host processes, where it redirects
//! the inotify entry points onto a socket to the daemon.  Everything that
//! touches the process — symbol resolution, the socket calls, `errno` —
//! lives with the caller; this module holds what the layer decides: which
//! descriptors it owns, how long to keep retrying the daemon, where the
//! socket is, and what each daemon answer means for the application.

use crate::message::Response;
use vstd::prelude::*;

verus! {

/// The descriptors the layer owns: sockets to the daemon handed to the
/// application in place of inotify descriptors.  Membership is a set.
pub struct ManagedFds {
    /// The owned descriptors.
    pub fds: Vec<i32>,
}

impl ManagedFds {
    /// No descriptor is recorded twice.
    pub open spec fn wf(self) -> bool {
        self.fds@.no_duplicates()
    }

    /// An empty set.
    pub fn new() -> (r: ManagedFds)
        ensures
            r.wf(),
            r.fds@.len() == 0,
    {
        ManagedFds { fds: Vec::new() }
    }

    /// Whether the layer owns `fd`.
    pub fn is_managed_fd(&self, fd: i32) -> (r: bool)
        ensures
            r == self.fds@.contains(fd),
    {
        let mut i: usize = 0;
        while i < self.fds.len()
            invariant
                i <= self.fds@.len(),
                forall|k: int| 0 <= k < i ==> self.fds@[k] != fd,
            decreases self.fds@.len() - i,
        {
            if self.fds[i] == fd {
                return true;
            }
            i = i + 1;
        }
        false
    }

    /// Record `fd` as owned; recording it twice changes nothing.
    pub fn register_fd(&mut self, fd: i32)
        requires
            old(self).wf(),
        ensures
            final(self).wf(),
            forall|x: i32| #[trigger]
                final(self).fds@.contains(x) <==> (old(self).fds@.contains(x) || x == fd),
    {
        if !self.is_managed_fd(fd) {
            self.fds.push(fd);
            proof {
                let n = self.fds@;
                let orig = old(self).fds@;
                assert forall|x: i32| #[trigger] n.contains(x) implies (orig.contains(x) || x
                    == fd) by {
                    let k = choose|k: int| 0 <= k < n.len() && n[k] == x;
                    if k < orig.len() {
                        assert(orig[k] == x);
                    }
                }
                assert forall|x: i32| orig.contains(x) || x == fd implies #[trigger] n.contains(
                    x,
                ) by {
                    if orig.contains(x) {
                        let k = choose|k: int| 0 <= k < orig.len() && orig[k] == x;
                        assert(n[k] == x);
                    } else {
                        assert(n[n.len() - 1] == fd);
                    }
                }
                assert forall|p: int, q: int|
                    0 <= p < n.len() && 0 <= q < n.len() && p != q implies n[p] != n[q] by {
                    if p == orig.len() {
                        assert(n[q] == orig[q] && n[p] == fd);
                        assert(!orig.contains(fd));
                    } else if q == orig.len() {
                        assert(n[p] == orig[p] && n[q] == fd);
                        assert(!orig.contains(fd));
                    }
                }
            }
        }
    }

    /// Forget `fd`; forgetting an unknown descriptor changes nothing.
    pub fn unregister_fd(&mut self, fd: i32)
        requires
            old(self).wf(),
        ensures
            final(self).wf(),
            forall|x: i32| #[trigger]
                final(self).fds@.contains(x) <==> (old(self).fds@.contains(x) && x != fd),
    {
        let ghost orig = self.fds@;
        let mut i: usize = 0;
        while i < self.fds.len()
            invariant
                self.fds@ == orig,
                orig == old(self).fds@,
                orig.no_duplicates(),
                i <= orig.len(),
                forall|k: int| 0 <= k < i ==> orig[k] != fd,
            decreases orig.len() - i,
        {
            if self.fds[i] == fd {
                self.fds.remove(i);
                proof {
                    let n = self.fds@;
                    assert forall|k: int| 0 <= k < n.len() implies n[k] == (if k < i {
                        orig[k]
                    } else {
                        orig[k + 1]
                    }) by {
                        if k < i {
                            assert(n[k] == orig.subrange(0, i as int)[k]);
                        } else {
                            assert(n[k] == orig.subrange(i as int + 1, orig.len() as int)[k
                                - i]);
                        }
                    }
                    assert forall|x: i32| #[trigger] n.contains(x) implies (orig.contains(x) && x
                        != fd) by {
                        let k = choose|k: int| 0 <= k < n.len() && n[k] == x;
                        if k < i {
                            assert(orig[k] == x);
                        } else {
                            assert(orig[k + 1] == x);
                            if x == fd {
                                assert(orig[i as int] == fd && orig[k + 1] == fd);
                            }
                        }
                    }
                    assert forall|x: i32| orig.contains(x) && x != fd implies #[trigger] n.contains(
                        x,
                    ) by {
                        let k = choose|k: int| 0 <= k < orig.len() && orig[k] == x;
                        if k < i {
                            assert(n[k] == x);
                        } else {
                            assert(k != i);
                            assert(n[k - 1] == x);
                        }
                    }
                    assert forall|p: int, q: int|
                        0 <= p < n.len() && 0 <= q < n.len() && p != q implies n[p] != n[q] by {
                        let op: int = if p < i {
                            p
                        } else {
                            p + 1
                        };
                        let oq: int = if q < i {
                            q
                        } else {
                            q + 1
                        };
                        assert(n[p] == orig[op] && n[q] == orig[oq]);
                    }
                }
                return ;
            }
            i = i + 1;
        }
        proof {
            assert(!orig.contains(fd));
        }
    }
}

/// The socket location the layer connects to, given the environment
/// values the caller read: the explicit override, then the runtime
/// directory, then the default.
pub fn get_socket_path(env_override: Option<String>, xdg_runtime_dir: Option<String>) -> (r:
    String)
    ensures
        r@ == crate::socket::spec_socket_path_with_xdg(env_override, xdg_runtime_dir),
{
    crate::socket::get_socket_path_with_xdg_fallback(env_override, xdg_runtime_dir)
}

/// The wait before connection attempt `attempt` to the daemon, counted
/// from 1, in milliseconds: exponential from 100 ms, capped at one
/// second.
pub open spec fn spec_backoff_delay_ms(attempt: u32) -> u32 {
    if attempt <= 1 {
        100
    } else if attempt == 2 {
        200
    } else if attempt == 3 {
        400
    } else if attempt == 4 {
        800
    } else {
        1000
    }
}

/// The wait before connection attempt `attempt`, counted from 1.
pub fn backoff_delay_ms(attempt: u32) -> (r: u32)
    ensures
        r == spec_backoff_delay_ms(attempt),
{
    if attempt <= 1 {
        100
    } else if attempt == 2 {
        200
    } else if attempt == 3 {
        400
    } else if attempt == 4 {
        800
    } else {
        1000
    }
}

/// Whether the layer stops retrying the daemon and falls back to the
/// real kernel implementation: after 60 failed attempts, about a minute
/// of waiting.
pub fn connect_should_give_up(attempt: u32) -> (r: bool)
    ensures
        r == (attempt > 60),
{
    attempt > 60
}

/// What an interposed call hands back to its application.
#[derive(Debug, Clone, Copy, PartialEq, Eq, Structural)]
pub enum CallOutcome {
    /// The call succeeded with this return value.
    Success(i32),
    /// The daemon refused the request: return -1 and set `errno` to the
    /// invalid-argument code.
    InvalidArgument,
    /// The exchange with the daemon broke down: return -1 and set
    /// `errno` to the input/output error code.
    IoFailure,
}

/// The outcome of an add-watch call, from the daemon's answer: the new
/// descriptor on success, a refusal for a daemon error, a broken
/// exchange for anything else.
pub fn add_watch_outcome(response: Option<Response>) -> (r: CallOutcome)
    ensures
        match response {
            Some(Response::WatchAdded { wd }) => r == CallOutcome::Success(wd),
            Some(Response::Error { message }) => r == CallOutcome::InvalidArgument,
            _ => r == CallOutcome::IoFailure,
        },
{
    match response {
        Some(Response::WatchAdded { wd }) => CallOutcome::Success(wd),
        Some(Response::Error { message }) => CallOutcome::InvalidArgument,
        _ => CallOutcome::IoFailure,
    }
}

/// The outcome of a remove-watch call, from the daemon's answer: zero on
/// success, a refusal for a daemon error, a broken exchange for anything
/// else.
pub fn rm_watch_outcome(response: Option<Response>) -> (r: CallOutcome)
    ensures
        match response {
            Some(Response::WatchRemoved) => r == CallOutcome::Success(0),
            Some(Response::Error { message }) => r == CallOutcome::InvalidArgument,
            _ => r == CallOutcome::IoFailure,
        },
{
    match response {
        Some(Response::WatchRemoved) => CallOutcome::Success(0),
        Some(Response::Error { message }) => CallOutcome::InvalidArgument,
        _ => CallOutcome::IoFailure,
    }
}

/// Whether the daemon's first answer on a fresh connection confirms the
/// registration, letting the layer hand the socket to the application.
pub fn registration_succeeded(response: &Option<Response>) -> (r: bool)
    ensures
        r == (response matches Some(Response::ClientRegistered { .. })),
{
    match response {
        Some(Response::ClientRegistered { .. }) => true,
        _ => false,
    }
}

} // verus!
