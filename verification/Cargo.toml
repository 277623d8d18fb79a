[package]
name = "shard_proxy"
version = "0.1.0"
edition = "2021"
publish = false

[dependencies]
crc16 = "0.4"
arc-swap = "1"
futures = "0.3"
futures-timer = "3"
tokio = { version = "1", default-features = false, features = ["net", "io-util", "rt", "sync", "time"] }
