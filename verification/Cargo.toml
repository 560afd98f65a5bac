[package]
name = "futuapi"
version = "0.1.0"
edition = "2021"
publish = false

[dependencies]
rust-crypto = "0.2.36"
prost = "0.11"
bytes = "1"
tokio = { version = "1", features = ["net", "sync", "time", "rt", "io-util"] }
time = "0.3"
log = "0.4"
