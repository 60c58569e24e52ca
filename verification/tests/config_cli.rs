//! Tests of configuration defaults, overrides, the command-line shape,
//! and socket-path resolution.

use fakenotify::cli::{Cli, Command};
use fakenotify::config::Config;
use fakenotify::socket::{
    get_socket_path, get_socket_path_with_xdg_fallback, DEFAULT_SOCKET_PATH, SOCKET_ENV_VAR,
};

#[test]
fn test_default_config() {
    let config = Config::default();
    assert_eq!(config.daemon.log_level, "info");
    assert_eq!(config.daemon.max_clients, 100);
    assert!(config.watch.is_empty());
}

#[test]
fn test_config_override_socket() {
    let config = Config::default().with_socket(Some("/tmp/test.sock".to_string()));
    assert_eq!(config.daemon.socket, "/tmp/test.sock".to_string());
}

#[test]
fn test_config_override_log_level() {
    let config = Config::default().with_log_level(Some("debug".to_string()));
    assert_eq!(config.daemon.log_level, "debug".to_string());
}

#[test]
fn test_config_override_none_keeps_values() {
    let config = Config::default().with_socket(None).with_log_level(None);
    assert_eq!(config.daemon.socket, DEFAULT_SOCKET_PATH);
    assert_eq!(config.daemon.log_level, "info");
}

#[test]
fn test_default_socket_path_constant() {
    assert_eq!(DEFAULT_SOCKET_PATH, "/run/fakenotify/fakenotify.sock");
}

#[test]
fn test_socket_env_var_constant() {
    assert_eq!(SOCKET_ENV_VAR, "FAKENOTIFY_SOCKET");
}

#[test]
fn test_get_socket_path_returns_path() {
    let path = get_socket_path(None);
    assert!(!path.is_empty());
}

#[test]
fn test_get_socket_path_with_xdg_fallback_returns_path() {
    let path = get_socket_path_with_xdg_fallback(None, None);
    assert!(!path.is_empty());
}

#[test]
fn test_socket_resolution_order() {
    // The override wins over the runtime directory, which wins over the
    // default.
    assert_eq!(
        get_socket_path_with_xdg_fallback(
            Some("/custom/path.sock".to_string()),
            Some("/run/user/1000".to_string()),
        ),
        "/custom/path.sock".to_string()
    );
    assert_eq!(
        get_socket_path_with_xdg_fallback(None, Some("/run/user/1000".to_string())),
        "/run/user/1000/fakenotify.sock".to_string()
    );
    assert_eq!(
        get_socket_path_with_xdg_fallback(None, None),
        DEFAULT_SOCKET_PATH.to_string()
    );
}

#[test]
fn test_cli_socket_path_prefers_subcommand_override() {
    let cli = Cli {
        config: None,
        log_level: None,
        command: Command::Start {
            socket: Some("/tmp/test.sock".to_string()),
            daemonize: true,
            pid_file: None,
        },
    };
    assert_eq!(
        cli.socket_path(Some("/env.sock".to_string()), None),
        "/tmp/test.sock".to_string()
    );
}

#[test]
fn test_cli_socket_path_falls_back_to_environment() {
    let cli = Cli {
        config: None,
        log_level: None,
        command: Command::Add {
            path: b"/mnt/media".to_vec(),
            poll_interval: 10,
            recursive: true,
            socket: None,
        },
    };
    assert_eq!(cli.socket_path(None, None), DEFAULT_SOCKET_PATH.to_string());
    assert_eq!(
        cli.socket_path(None, Some("/run/user/7".to_string())),
        "/run/user/7/fakenotify.sock".to_string()
    );
}
