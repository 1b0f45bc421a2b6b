[package]
name = "triad"
version = "0.1.0"
edition = "2021"
publish = false

[dependencies]
zstd = "0.13"
lz4_flex = "0.11"
brotli = "3"
sha2 = "0.10"
rand = "0.8"
uuid = { version = "1", features = ["v4"] }
rayon = "1"
serde = { version = "1", features = ["derive"] }
serde_json = "1"
bincode = "1"
log = "0.4"
env_logger = "0.10"
tokio = { version = "1", features = ["full"] }
tokio-tungstenite = "0.20"
futures = "0.3"
reqwest = { version = "0.11", default-features = false, features = ["json"] }
