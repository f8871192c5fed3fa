[package]
name = "scpf"
version = "0.1.0"
edition = "2021"
publish = false

[dependencies]
anyhow = "=1.0.104"
regex = "=1.13.1"
fancy-regex = "=0.14.0"
rand = "=0.8.8"
serde = { version = "=1.0.229", features = ["derive"] }
serde_json = "=1.0.154"
serde_yaml = "=0.9.34"
clap = { version = "=4.6.7", features = ["derive"] }
colored = "=2.2.0"
dirs = "=5.0.1"
dotenvy = "=0.15.7"
tokio = { version = "=1.54.1", features = ["rt-multi-thread", "macros", "fs", "time", "sync"] }
reqwest = { version = "=0.12.28", default-features = false, features = ["json", "rustls-tls"] }
walkdir = "=2.5.0"
xxhash-rust = { version = "=0.8.19", features = ["xxh3"] }
chrono = "=0.4.45"
futures = "=0.3.34"
tracing = "=0.1.44"
tracing-subscriber = "=0.3.23"
rayon = "=1.12.0"
tree-sitter = "=0.25.10"
tree-sitter-solidity = "=1.2.13"
solang-parser = "=0.3.5"

[dev-dependencies]
tempfile = "=3.27.0"
