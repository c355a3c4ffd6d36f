[package]
name = "sulaco"
version = "0.1.0"
edition = "2021"
publish = false

[dependencies]
anyhow = "1"
nix = { version = "0.29", features = ["process", "signal"] }
serde = { version = "1", features = ["derive", "rc"] }
serde_yaml = "0.9"
tokio = { version = "1", features = ["io-util", "macros", "process", "rt", "signal", "sync", "time"] }
