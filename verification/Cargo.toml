[package]
name = "krapbott"
version = "0.1.0"
edition = "2021"
publish = false

[dependencies]
regex = "=1.13.1"
sha2 = "=0.10.9"
base64 = "=0.22.1"
urlencoding = "=2.1.3"
rand = "=0.9.5"
unicode-normalization = "=0.1.26"
unicode-general-category = "=1.1.0"
serde = { version = "=1.0.229", features = ["derive"] }
serde_json = "=1.0.154"
tokio = { version = "=1.54.1", features = ["full"] }
twitch-irc = { version = "=5.0.1", default-features = false, features = ["transport-tcp", "transport-tcp-rustls-webpki-roots"] }
dashmap = "=6.2.1"
uuid = { version = "=1.29.0", features = ["v4"] }
reqwest = { version = "=0.12.28", default-features = false, features = ["json", "rustls-tls"] }
warp = { version = "0.3", default-features = false }
