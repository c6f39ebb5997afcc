[package]
name = "nixpxe"
version = "0.1.0"
edition = "2021"
publish = false

[dependencies]
anyhow = "1"
async-compression = { version = "0.4", features = ["tokio", "xz", "zstd"] }
axum = { version = "0.8", features = ["macros"] }
axum-embed = "*"
axum-extra = { version = "0.10", features = ["erased-json"] }
base64 = "=0.22.1"
camino = "1"
clap = { version = "4", features = ["derive", "env"] }
either = { version = "1", features = ["serde"] }
futures = "0.3"
hmac = "=0.12.1"
http = "1"
ipmi-rs = "0.4"
rand = "=0.9.5"
regex = "1"
reqwest = { version = "0.12", features = ["json", "stream"] }
rust-embed = "8"
serde = { version = "1", features = ["derive"] }
sha2 = "=0.10.9"
tempfile = "3"
tokio = { version = "1", features = ["full"] }
tokio-util = { version = "0.7", features = ["io"] }
toml = "0.9"
tower-http = { version = "0.6", features = ["trace", "cors"] }
tracing = "0.1"
tracing-subscriber = "0.3"
url = { version = "=2.5.8", features = ["serde"] }
