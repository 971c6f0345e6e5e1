[package]
name = "codex_linux"
version = "0.4.1"
edition = "2021"
publish = false

[dependencies]
anyhow = "1"
base64 = "0.22"
chrono = "0.4"
clap = { version = "4", features = ["derive"] }
futures-util = "0.3"
notify-rust = "4"
reqwest = { version = "0.12", default-features = false, features = ["rustls-tls"] }
schemars = "0.8"
serde = { version = "1", features = ["derive"] }
serde_json = "1"
tokio = { version = "1", features = ["macros", "rt-multi-thread", "time", "signal"] }
tracing = "0.1"
zbus = "5"
