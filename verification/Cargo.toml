[package]
name = "ncro"
version = "0.1.0"
edition = "2021"
publish = false

[dependencies]
anyhow = "1"
aws-config = "1"
aws-sdk-s3 = "1"
axum = { version = "0.8", default-features = false, features = ["http1", "json", "tokio"] }
base64 = "0.22"
bytes = "1"
chrono = { version = "0.4", features = ["serde"] }
dashmap = "6"
ed25519-dalek = "2"
futures-util = "0.3"
hex = "0.4"
humantime-serde = "1"
log = "0.4"
moka = { version = "0.12", features = ["future"] }
pound = "*"
prometheus = { version = "*", default-features = false }
rand = "*"
reqwest = { version = "0.12", default-features = false, features = ["rustls-tls", "stream"] }
rmp-serde = "1"
rust-netrc = "*"
serde = { version = "1", features = ["derive"] }
sqlx = { version = "*", default-features = false, features = ["runtime-tokio", "sqlite"] }
thiserror = "2"
tokio = { version = "1", features = ["fs", "macros", "net", "rt-multi-thread", "signal", "sync", "time"] }
toml = "*"
tower-http = { version = "0.6", features = ["timeout"] }
tracing = "0.1"
tracing-subscriber = { version = "0.3", features = ["env-filter", "json"] }
url = "2"
