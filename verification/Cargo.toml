[package]
name = "kiyoctl"
version = "0.3.0"
edition = "2021"
publish = false

[dependencies]
clap = { version = "4", features = ["derive"] }
ratatui = "0.29"
rusb = { version = "0.9", features = ["vendored"] }
serde = { version = "1", features = ["derive"] }
serde_json = "1"
