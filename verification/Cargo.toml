[package]
name = "stay"
version = "0.1.0"
edition = "2021"
publish = false

[dependencies]
chrono = "0.4"
libc = "0.2"
nix = { version = "0.29", features = ["fs", "poll", "process", "signal", "term"] }
serde = { version = "1", features = ["derive"] }
serde_json = "1"
