[package]
name = "http2"
version = "0.1.0"
edition = "2021"
publish = false

[dependencies]
anyhow = "*"
clap = "*"
env_logger = "*"
log = "*"
serde = { version = "*", features = ["derive"] }
serde_json = "*"
tokio = { version = "*", features = ["rt-multi-thread", "macros", "net", "sync", "io-util", "time"] }
tokio-rustls = { version = "*", default-features = false, features = ["ring", "tls12", "logging"] }
url = "*"
webpki-roots = "*"

[dev-dependencies]
hpack = "*"
