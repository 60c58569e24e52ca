[package]
name = "fakenotify"
version = "0.1.0"
edition = "2021"
publish = false

[dependencies]
clap = { version = "*", features = ["derive", "env"] }
color-eyre = "*"
ctor = "*"
dirs = "*"
figment = { version = "*", features = ["toml", "env"] }
libc = "*"
notify = "*"
parking_lot = "*"
serde = { version = "*", features = ["derive"] }
tokio = { version = "*", features = ["rt-multi-thread", "net", "sync", "signal", "io-util", "macros", "time"] }
tracing = "*"
tracing-subscriber = { version = "*", features = ["env-filter", "fmt"] }
