[package]
name = "bookmarks"
version = "0.1.0"
edition = "2021"
publish = false

[dependencies]
anyhow = "=1.0.104"
axum = "=0.8.9"
axum-macros = "*"
chrono = { version = "=0.4.45", features = ["serde"] }
deadpool-postgres = "=0.14.2"
gloo-net = "=0.7.0"
jsonwebtoken = "=9.3.1"
log = "=0.4.34"
serde = { version = "=1.0.229", features = ["derive"] }
serde_json = "=1.0.154"
thiserror = "=2.0.21"
tokio-postgres = { version = "=0.7.18", features = ["with-uuid-1", "with-chrono-0_4"] }
tracing = "=0.1.44"
url = { version = "=2.5.8", features = ["serde"] }
uuid = { version = "=1.29.0", features = ["serde", "v4"] }
web-sys = { version = "0.3", features = ["HtmlInputElement"] }
yew = "=0.23.0"
