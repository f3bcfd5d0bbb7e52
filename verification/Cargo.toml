[package]
name = "bittorrent"
version = "0.1.0"
edition = "2021"
publish = false

[dependencies]
anyhow = "1"
base64 = "0.21"
chrono = "0.4"
clap = { version = "4", features = ["derive"] }
crossbeam = "0.8"
hex = "0.4"
lazy_static = "1"
multihash = "0.19"
rand = "0.8"
regex = "1"
reqwest = { version = "0.11", default-features = false, features = ["blocking"] }
serde_json = "1"
sha1 = "0.10"
