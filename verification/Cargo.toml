[package]
name = "beam"
version = "0.1.0"
edition = "2021"
publish = false

[dependencies]
anyhow = "1"
axum = "0.8"
base64 = "0.22"
dirs = "6"
display-info = "0.5"
enigo = { version = "0.6", default-features = false, features = ["x11rb"] }
hyper-util = { version = "0.1", features = ["server-auto", "service", "tokio"] }
open = "5"
opus = "0.3"
rand = "0.9"
rcgen = "0.13"
resvg = { version = "0.45", default-features = false }
serde = { version = "1", features = ["derive"] }
serde_json = "1"
subtle = "2"
tokio = { version = "1", features = ["full"] }
tokio-rustls = { version = "0.26", default-features = false, features = ["ring", "tls12"] }
tower-http = { version = "0.6", features = ["fs", "trace"] }
tracing = "0.1"
tracing-subscriber = { version = "0.3", features = ["env-filter"] }
webrtc = "0.14"
