[package]
name = "sipmon"
version = "0.1.0"
edition = "2021"

[dependencies]
anyhow = "=1.0.104"
bytes = "=1.12.1"
clap = { version = "=4.6.7", features = ["derive"] }
crossterm = "=0.29.0"
libc = "=0.2.191"
ratatui = "=0.30.2"
rsipstack = { version = "=0.7.14", default-features = false, features = ["platform-tokio", "std"] }
rustc-hash = "=2.1.3"
serde = { version = "=1.0.229", features = ["derive"] }
serde_json = "=1.0.154"
smallvec = "=1.16.4"
tracing = "=0.1.44"
