[package]
name = "imap-stream"
version = "0.1.0"
edition = "2021"
publish = false

[dependencies]
async-std = { version = "1", default-features = false, features = ["std"] }
bytes = "=1.12.1"
futures-util = "=0.3.34"
imap-proto = "=0.16.7"
log = "=0.4.35"
nom = "=7.1.3"
tokio = { version = "=1.54.1", features = ["io-util"] }
