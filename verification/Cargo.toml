[package]
name = "kv"
version = "0.1.0"
edition = "2021"
publish = false

[dependencies]
flate2 = "1"
tokio = { version = "1", features = ["rt", "rt-multi-thread", "net", "io-util", "macros", "sync"] }
tokio-rustls = "0.22"
tokio-util = { version = "0.6", features = ["compat"] }
yamux = "0.9"
futures = "0.3"
bytes = "1"
rustls-native-certs = "0.5"
