[package]
name = "librtbit_lsd"
version = "0.1.0"
edition = "2021"
publish = false

[dependencies]
anyhow = "1"
atoi = "2"
bstr = "1"
futures = "0.3"
httparse = "1"
librqbit-dualstack-sockets = "*"
librtbit-core = "*"
parking_lot = "0.12"
rand = "0.9"
tokio = { version = "1", features = ["macros", "rt", "sync", "time", "net"] }
tokio-util = "0.7"
tracing = "0.1"
