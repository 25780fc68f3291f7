[package]
name = "rustis"
version = "0.1.0"
edition = "2021"
publish = false

[dependencies]
bytes = "1"
crc16 = "0.4"
futures = "0.3"
log = "0.4"
rand = "0.8"
smallvec = "1"
tokio = { version = "1", features = ["net", "io-util", "rt", "time"] }
tokio-util = { version = "0.7", features = ["codec"] }
