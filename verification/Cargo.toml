[package]
name = "miner_scanner"
version = "0.1.0"
edition = "2021"
publish = false

[dependencies]
futures-util = "0.3"
ipnet = "2"
tokio = { version = "1", features = ["net", "time", "io-util", "macros", "rt-multi-thread"] }
