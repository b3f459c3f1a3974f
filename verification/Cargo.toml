[package]
name = "p2p_chat"
version = "0.1.0"
edition = "2021"
publish = false

[dependencies]
md5 = "0.7"
rand = "0.9"
chrono = "0.4"
colored = "2"
tokio = { version = "1", features = ["net", "io-util", "sync", "time", "rt"] }
