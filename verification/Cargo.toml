[package]
name = "puzzle_miner"
version = "0.1.0"
edition = "2021"
publish = false

[dependencies]
shakmaty = "=0.29.4"
indexmap = "*"
anyhow = "*"
clap = { version = "*", features = ["derive"] }
colored = "*"
env_logger = "*"
indicatif = "*"
lazy_static = "*"
log = "*"
pgn-reader = "=0.28.0"
serde = { version = "*", features = ["derive"] }
serde_json = "*"
shakmaty-syzygy = "=0.27.0"
tokio = { version = "*", features = ["full"] }
