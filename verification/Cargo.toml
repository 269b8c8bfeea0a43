[package]
name = "mgmt"
version = "0.1.0"
edition = "2021"
publish = false

[dependencies]
anyhow = "1"
axum = { version = "0.8", features = ["multipart"] }
axum-extra = { version = "0.10", features = ["cookie", "form"] }
base64 = "0.22"
bytes = "1"
chrono = "0.4"
flate2 = "1"
futures = "0.3"
hmac = "0.12"
mime_guess = "2"
prometheus = { version = "0.13", default-features = false }
pulldown-cmark = "0.12"
rand = "0.8"
regex-lite = "0.1"
rusqlite = { version = "0.32", features = ["bundled"] }
serde = { version = "1", features = ["derive"] }
serde_json = "1"
sha2 = "0.10"
subtle = "2"
tar = "0.4"
tempfile = "3"
tokio = { version = "1", features = ["full"] }
tokio-util = { version = "0.7", features = ["io"] }
toml = "0.8"
tower-http = { version = "0.6", features = ["set-header"] }
tracing = "0.1"
urlencoding = "2"
uuid = { version = "1", features = ["v4"] }
zstd = "0.13"
