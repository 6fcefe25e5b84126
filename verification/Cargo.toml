[package]
name = "h33_cli"
version = "0.1.0"
edition = "2021"
publish = false

[dependencies]
regex = "=1.13.1"
sha3 = "=0.10.9"
hex = "=0.4.3"
h33-substrate-verifier = { version = "=0.1.0", features = ["reqwest-support"] }
anyhow = "=1.0.104"
clap = { version = "=4.6.7", features = ["derive", "env"] }
colored = "=2.2.0"
dirs = "=5.0.1"
open = "=5.4.5"
reqwest = { version = "=0.12.28", default-features = false, features = ["json", "rustls-tls"] }
serde_json = "=1.0.154"
tokio = { version = "=1.54.1", features = ["macros", "rt-multi-thread", "process"] }
walkdir = "=2.5.0"
chrono = { version = "=0.4.45", default-features = false, features = ["clock"] }
