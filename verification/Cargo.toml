[package]
name = "raftor"
version = "0.1.0"
edition = "2021"
publish = false

[dependencies]
bytes = "=0.4.12"
byteorder = "=1.5.0"
rust-crypto = "=0.2.36"
hash_ring = "=0.2.0"
fasthash = "=0.4.0"
serde = { version = "=1.0.229", features = ["derive"] }
serde_json = "=1.0.154"
log = "=0.4.35"
actix = "=0.8.3"
actix-web = { version = "=1.0.9", default-features = false, features = ["client"] }
actix-web-actors = "=1.0.4"
actix-cors = "=0.1.0"
actix-files = "=0.1.7"
actix-raft = "=0.4.4"
tokio = "=0.1.22"
futures = "=0.1.31"
evmap = "=11.0.0"
tempfile = "=3.27.0"
config = { version = "=0.9.3", default-features = false, features = ["toml"] }
time = "=0.1.44"
chrono = "=0.4.19"
