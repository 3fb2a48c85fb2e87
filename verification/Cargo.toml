[package]
name = "execnode"
version = "0.1.0"
edition = "2021"
publish = false

[dependencies]
libp2p = { version = "0.53", features = ["async-std", "dns", "ed25519", "floodsub", "macros", "mdns", "noise", "tcp", "yamux"] }
async-std = { version = "1", features = ["attributes"] }
futures = "0.3"
anyhow = "1"
env_logger = "0.9"
