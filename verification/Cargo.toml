[package]
name = "bluefin"
version = "0.1.5"
edition = "2021"
publish = false

[dependencies]
bytes = "1"
dashmap = "6"
flume = "0.11"
libc = "0.2"
rand = "0.9"
socket2 = { version = "0.5", features = ["all"] }
thiserror = "2"
tokio = { version = "1", features = ["full"] }
