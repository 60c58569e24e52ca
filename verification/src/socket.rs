//! Resolution of the IPC socket location.
//!
//! Both endpoints agree on the same order: an explicit override from the
//! environment wins, then the user's runtime directory, then the
//! system-wide default.  Reading the environment is the caller's job;
//! these functions decide from the values read.

use vstd::prelude::*;
use vstd::string::{StrSliceExecFns, StringExecFns};

verus! {

/// Default socket path of the daemon.
pub const DEFAULT_SOCKET_PATH: &'static str = "/run/fakenotify/fakenotify.sock";

/// Environment variable that overrides the socket path.
pub const SOCKET_ENV_VAR: &'static str = "FAKENOTIFY_SOCKET";

/// The socket location implied by an override value alone: the override
/// when set, else the default location.
pub open spec fn spec_socket_path(env_override: Option<String>) -> Seq<char> {
    match env_override {
        Some(s) => s@,
        None => DEFAULT_SOCKET_PATH@,
    }
}

/// The socket location implied by the override and the runtime
/// directory: the override when set, else the socket file inside the
/// runtime directory when one is known, else the default location.
pub open spec fn spec_socket_path_with_xdg(
    env_override: Option<String>,
    xdg_runtime_dir: Option<String>,
) -> Seq<char> {
    match env_override {
        Some(s) => s@,
        None => match xdg_runtime_dir {
            Some(dir) => dir@ + "/fakenotify.sock"@,
            None => DEFAULT_SOCKET_PATH@,
        },
    }
}

/// The socket path to use, given the override variable's value.
pub fn get_socket_path(env_override: Option<String>) -> (r: String)
    ensures
        r@ == spec_socket_path(env_override),
{
    match env_override {
        Some(s) => s,
        None => DEFAULT_SOCKET_PATH.to_owned(),
    }
}

/// The socket path to use, given the override variable's value and the
/// runtime directory, for callers that cannot write below `/run`.
pub fn get_socket_path_with_xdg_fallback(
    env_override: Option<String>,
    xdg_runtime_dir: Option<String>,
) -> (r: String)
    ensures
        r@ == spec_socket_path_with_xdg(env_override, xdg_runtime_dir),
{
    match env_override {
        Some(s) => s,
        None => match xdg_runtime_dir {
            Some(dir) => dir.concat("/fakenotify.sock"),
            None => DEFAULT_SOCKET_PATH.to_owned(),
        },
    }
}

} // verus!
