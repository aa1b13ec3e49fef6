[package]
name = "howmuchiai"
version = "0.3.0"
edition = "2021"
publish = false

[dependencies]
base64 = "0.22"
chrono = "0.4"
clap = { version = "4", features = ["derive"] }
dirs = "*"
flate2 = "1"
glob = "0.3"
hostname = "0.4"
rayon = "1"
regex = "1"
rusqlite = { version = "*", features = ["bundled"] }
rusty-leveldb = "*"
serde = { version = "1", features = ["derive"] }
serde_json = "1"
tempfile = "3"
thiserror = "*"
tiktoken-rs = "*"
uuid = { version = "1", features = ["v4"] }
