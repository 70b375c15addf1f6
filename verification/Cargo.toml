[package]
name = "firmata"
version = "0.1.0"
edition = "2021"
publish = false

[dependencies]
byteorder = "1"
bytes = "1"
futures = "0.3"
serde = { version = "1", features = ["derive"] }
thiserror = "1"
tokio = { version = "1", features = ["io-util", "sync", "macros", "rt", "rt-multi-thread", "net", "time"] }
tokio-stream = "0.1"
tokio-util = { version = "0.7", features = ["codec"] }
