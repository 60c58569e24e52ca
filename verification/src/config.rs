//! The daemon's configuration values.
//!
//! Loading — the configuration file, the environment, their merging —
//! lives with the caller; this module holds the merged shape, its
//! defaults, and the command-line overrides applied last.

use vstd::prelude::*;
use vstd::string::StrSliceExecFns;

verus! {

/// The merged configuration: the daemon's own settings and the watches
/// configured at startup.
pub struct Config {
    /// Daemon settings.
    pub daemon: DaemonConfig,
    /// Watches to establish at startup.
    pub watch: Vec<WatchConfig>,
}

/// Daemon-wide settings.
pub struct DaemonConfig {
    /// Unix socket path.
    pub socket: String,
    /// Log level name: trace, debug, info, warn or error.
    pub log_level: String,
    /// Most clients served at once.
    pub max_clients: usize,
    /// Whether statistics are collected.
    pub enable_stats: bool,
}

/// One watch configured at startup.
pub struct WatchConfig {
    /// Path to watch.
    pub path: Vec<u8>,
    /// Polling interval in seconds.
    pub poll_interval: u64,
    /// Whether descendants are watched too.
    pub recursive: bool,
}

/// The socket path assumed when neither configuration nor environment
/// names one.  A loader that knows the runtime directory resolves the
/// environment-sensitive fallbacks itself (see [`crate::socket`]).
pub fn default_socket_path() -> (r: String)
    ensures
        r@ == crate::socket::DEFAULT_SOCKET_PATH@,
{
    crate::socket::DEFAULT_SOCKET_PATH.to_owned()
}

/// The log level assumed when none is configured.
pub fn default_log_level() -> (r: String)
    ensures
        r@ == "info"@,
{
    "info".to_owned()
}

/// The client limit assumed when none is configured.
pub fn default_max_clients() -> (r: usize)
    ensures
        r == 100,
{
    100
}

/// The polling interval assumed when a watch names none, in seconds.
pub fn default_poll_interval() -> (r: u64)
    ensures
        r == 5,
{
    5
}

/// Whether a watch is recursive when it does not say.
pub fn default_recursive() -> (r: bool)
    ensures
        r,
{
    true
}

impl Default for DaemonConfig {
    /// The daemon settings before any configuration is read.
    fn default() -> (r: DaemonConfig)
        ensures
            r.socket@ == crate::socket::DEFAULT_SOCKET_PATH@,
            r.log_level@ == "info"@,
            r.max_clients == 100,
            !r.enable_stats,
    {
        DaemonConfig {
            socket: default_socket_path(),
            log_level: default_log_level(),
            max_clients: default_max_clients(),
            enable_stats: false,
        }
    }
}

impl Default for Config {
    /// The configuration before any source is read: default daemon
    /// settings and no watches.
    fn default() -> (r: Config)
        ensures
            r.daemon.socket@ == crate::socket::DEFAULT_SOCKET_PATH@,
            r.daemon.log_level@ == "info"@,
            r.daemon.max_clients == 100,
            !r.daemon.enable_stats,
            r.watch@.len() == 0,
    {
        Config { daemon: DaemonConfig::default(), watch: Vec::new() }
    }
}

impl Config {
    /// Apply a socket override from the command line; nothing else
    /// changes.
    pub fn with_socket(self, socket: Option<String>) -> (r: Config)
        ensures
            match socket {
                Some(s) => r.daemon.socket@ == s@,
                None => r.daemon.socket@ == self.daemon.socket@,
            },
            r.daemon.log_level@ == self.daemon.log_level@,
            r.daemon.max_clients == self.daemon.max_clients,
            r.daemon.enable_stats == self.daemon.enable_stats,
            r.watch == self.watch,
    {
        match socket {
            Some(s) => Config {
                daemon: DaemonConfig { socket: s, ..self.daemon },
                watch: self.watch,
            },
            None => self,
        }
    }

    /// Apply a log-level override from the command line; nothing else
    /// changes.
    pub fn with_log_level(self, log_level: Option<String>) -> (r: Config)
        ensures
            match log_level {
                Some(level) => r.daemon.log_level@ == level@,
                None => r.daemon.log_level@ == self.daemon.log_level@,
            },
            r.daemon.socket@ == self.daemon.socket@,
            r.daemon.max_clients == self.daemon.max_clients,
            r.daemon.enable_stats == self.daemon.enable_stats,
            r.watch == self.watch,
    {
        match log_level {
            Some(level) => Config {
                daemon: DaemonConfig { log_level: level, ..self.daemon },
                watch: self.watch,
            },
            None => self,
        }
    }
}

} // verus!
