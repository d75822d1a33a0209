[package]
name = "burning_monitor"
version = "0.1.0"
edition = "2021"
publish = false

[dependencies]
anyhow = "1"
parking_lot = "*"
remoteprocess = "*"
perf_monitor = "*"
tokio = { version = "1", features = ["rt", "rt-multi-thread", "time"] }
tracing = "*"
tracing-subscriber = { version = "*", features = ["env-filter", "fmt", "registry"] }
lazy_static = "*"
libc = "*"
thread-id = "*"
strum_macros = "*"
minidump-writer = "*"
crash-context = "*"
nix = "*"
