[package]
name = "clipd"
version = "0.1.0"
edition = "2021"
publish = false

[dependencies]
crossbeam-channel = "0.5"
global-hotkey = "0.7"
serde = { version = "1", features = ["derive"] }
thiserror = "2"
toml = "*"
tracing = "0.1"
tracing-appender = "0.2"
tracing-subscriber = { version = "0.3", features = ["env-filter"] }
