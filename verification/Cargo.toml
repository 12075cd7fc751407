[package]
name = "netfile-core"
version = "0.1.0"
edition = "2021"
publish = false

[dependencies]
sha2 = "=0.10.9"
crc32fast = "=1.5.4"
zstd = "=0.13.4"
uuid = { version = "=1.29.0", features = ["v4"] }
hostname = "=0.4.2"
serde = { version = "=1.0.229", features = ["derive"] }
serde_json = "=1.0.154"
bincode = "=1.3.3"
toml = "=0.8.23"
dirs = "=5.0.1"
tokio = { version = "=1.54.1", features = ["full"] }
anyhow = "=1.0.104"
stun = "*"
