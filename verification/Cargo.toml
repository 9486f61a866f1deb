[package]
name = "floatnet"
version = "0.1.0"
edition = "2021"
publish = false

[dependencies]
anyhow = "1"
bytes = "1"
hex = "0.4"
indexmap = "2"
parking_lot = "0.12"
rand = "0.8"
reed-solomon-erasure = "6"
serde = { version = "1", features = ["derive"] }
serde_json = "1"
smallvec = "1"
socket2 = "0.5"
tokio = { version = "1", features = ["full"] }
