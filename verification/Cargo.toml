[package]
name = "vigilant_guard"
version = "0.1.0"
edition = "2021"
publish = false

[dependencies]
serde_json = "=1.0.154"
chrono = "=0.4.45"
tokio = { version = "1", features = ["net", "io-util", "rt-multi-thread", "macros", "sync", "time"] }
reqwest = { version = "0.11", default-features = false, features = ["rustls-tls"] }
anyhow = "1"
log = "0.4"
serde = { version = "1", features = ["derive"] }
toml = "0.7"
