[package]
name = "parasync"
version = "0.1.0"
edition = "2021"
publish = false

[dependencies]
chrono = "*"
crossbeam-channel = "*"
encoding_rs = "*"
futures-util = "*"
once_cell = "*"
parking_lot = "*"
reqwest = { version = "*", default-features = false, features = ["stream"] }
serde = { version = "*", features = ["derive"] }
serde_json = "*"
symphonia = "*"
tokio = { version = "*", features = ["rt", "rt-multi-thread", "macros", "fs", "io-util", "sync", "time"] }
uuid = { version = "*", features = ["v4"] }
zip = { version = "*", default-features = false, features = ["deflate"] }
