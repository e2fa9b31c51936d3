[package]
name = "agentsync_core"
version = "0.1.0"
edition = "2021"
publish = false

[dependencies]
base64 = "0.22"
sha2 = "0.10"
hmac = "0.12"
ed25519-dalek = { version = "2", features = ["rand_core"] }
rand_core = { version = "0.6", features = ["getrandom"] }
unicode-normalization = "0.1"
hex = "0.4"
ignore = "0.4"
walkdir = "2"
automerge = "0.5"
serde = { version = "1", features = ["derive"] }
serde_json = "1"
rmp-serde = "1"
toml = "0.8"
clap = { version = "4", features = ["derive", "env"] }
clap_complete = "4"
tokio = { version = "1", features = ["full"] }
tokio-tungstenite = "0.26"
tokio-rustls = "0.26"
rustls = "0.23"
rcgen = "0.13"
notify = "8"
futures-util = "0.3"
async-trait = "0.1"
url = "2"
uuid = { version = "1", features = ["v4"] }
anyhow = "1"
tracing = "0.1"
tracing-subscriber = { version = "0.3", features = ["env-filter"] }
