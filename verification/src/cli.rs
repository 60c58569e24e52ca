//! The daemon's command-line surface: the parsed shape of an invocation
//! and the socket resolution it implies.
//!
//! Parsing the argument strings into this shape lives with the caller;
//! the subcommands and options here mirror that surface one for one.

use vstd::prelude::*;

verus! {

/// One parsed invocation of the daemon binary.
pub struct Cli {
    /// Configuration file path, when given.
    pub config: Option<String>,
    /// Log level override, when given.
    pub log_level: Option<String>,
    /// The subcommand.
    pub command: Command,
}

/// The daemon's subcommands.
pub enum Command {
    /// Start the daemon.
    Start {
        /// Socket path override.
        socket: Option<String>,
        /// Run in the background.
        daemonize: bool,
        /// Where to write the child's pid when daemonizing.
        pid_file: Option<String>,
    },
    /// Stop the running daemon.
    Stop {
        /// Socket path override.
        socket: Option<String>,
    },
    /// Report whether the daemon runs.
    Status {
        /// Socket path override.
        socket: Option<String>,
    },
    /// Add a watch at runtime.
    Add {
        /// Path to watch.
        path: Vec<u8>,
        /// Polling interval in seconds.
        poll_interval: u64,
        /// Whether descendants are watched too.
        recursive: bool,
        /// Socket path override.
        socket: Option<String>,
    },
    /// Remove a watch at runtime.
    Remove {
        /// Path to stop watching.
        path: Vec<u8>,
        /// Socket path override.
        socket: Option<String>,
    },
    /// List the watched paths.
    List {
        /// Socket path override.
        socket: Option<String>,
    },
}

impl Cli {
    /// The socket override this invocation carries, if any; every
    /// subcommand accepts one.
    pub open spec fn spec_socket_override(self) -> Option<String> {
        match self.command {
            Command::Start { socket, .. } => socket,
            Command::Stop { socket } => socket,
            Command::Status { socket } => socket,
            Command::Add { socket, .. } => socket,
            Command::Remove { socket, .. } => socket,
            Command::List { socket } => socket,
        }
    }

    /// The socket path this invocation works against: the subcommand's
    /// override when given, else the environment-driven resolution (see
    /// [`crate::socket`]); the caller reads the environment values.
    pub fn socket_path(&self, env_override: Option<String>, xdg_runtime_dir: Option<String>) -> (r:
        String)
        ensures
            match self.spec_socket_override() {
                Some(s) => r@ == s@,
                None => r@ == crate::socket::spec_socket_path_with_xdg(
                    env_override,
                    xdg_runtime_dir,
                ),
            },
    {
        let over: &Option<String> = match &self.command {
            Command::Start { socket, .. } => socket,
            Command::Stop { socket } => socket,
            Command::Status { socket } => socket,
            Command::Add { socket, .. } => socket,
            Command::Remove { socket, .. } => socket,
            Command::List { socket } => socket,
        };
        match over {
            Some(s) => s.clone(),
            None => crate::socket::get_socket_path_with_xdg_fallback(
                env_override,
                xdg_runtime_dir,
            ),
        }
    }
}

} // verus!
