[package]
name = "herdr"
version = "0.1.0"
edition = "2021"
publish = false

[dependencies]
bytes = "1"
ratatui = { version = "0.29", default-features = false }
tracing = { version = "0.1", default-features = false, features = ["std"] }
