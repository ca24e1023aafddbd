[package]
name = "snap_coin"
version = "0.1.0"
edition = "2021"
publish = false

[dependencies]
sha2 = "=0.11.1"
num-bigint = "=0.5.1"
probabilistic-collections = { version = "=0.7.0", features = ["serde"] }
serde = { version = "=1.0.229", features = ["derive"] }
serde_json = "=1.0.154"
thiserror = "=2.0.21"
bincode = { version = "=2.0.1", features = ["serde", "derive"] }
tokio = { version = "1", features = ["sync", "time", "rt", "macros"] }
log = "0.4"
