[package]
name = "kintate-proxy"
version = "0.1.0"
edition = "2021"
publish = false

[dependencies]
http = "=1.5.0"
regex = "=1.13.1"
percent-encoding = "=2.3.2"
chrono = "=0.4.45"
rusqlite = { version = "=0.41.1", features = ["bundled"] }
serde = { version = "=1.0.229", features = ["derive"] }
tokio = { version = "=1.54.1", features = ["full"] }
axum = "=0.8.9"
tower-http = { version = "=0.7.1", features = ["cors"] }
tracing = "=0.1.44"
tracing-subscriber = { version = "=0.3.23", features = ["env-filter"] }
http-mitm-proxy = "=0.18.0"
http-body-util = "=0.1.5"
bytes = "=1.12.1"
rcgen = { version = "=0.14.10", features = ["pem", "x509-parser"] }
moka = { version = "=0.12.16", features = ["sync"] }
clap = { version = "=4.6.7", features = ["derive"] }
ratatui = "=0.30.2"
crossterm = "=0.29.0"
common-access-token = "=0.2.7"
