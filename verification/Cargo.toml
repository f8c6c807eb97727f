[package]
name = "market_engine"
version = "0.1.0"
edition = "2021"
publish = false

[dependencies]
bytes = "=1.12.1"
libc = "=0.2.190"
rand = "=0.10.3"
shared_child = "*"
tokio = { version = "=1.53.2", features = ["sync", "rt", "time", "macros", "net", "process", "io-util"] }
