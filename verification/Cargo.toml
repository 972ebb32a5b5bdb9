[package]
name = "volant_kafka"
version = "0.1.0"
edition = "2021"
publish = false

[dependencies]
base64 = "0.22"
bytes = "1"
crc32c = "0.6"
crc32fast = "1"
flate2 = "1"
lz4_flex = "0.11"
parking_lot = "0.12"
serde = { version = "1", features = ["derive"] }
serde_json = "1"
snap = "1"
tokio = { version = "1", features = ["rt-multi-thread", "macros", "net", "io-util", "sync", "time"] }
tracing = "0.1"
zstd = "0.13"
