[package]
name = "net_handshake"
version = "0.1.0"
edition = "2021"
publish = false

[dependencies]
casper-types = "*"
serde = { version = "*", features = ["derive"] }
datasize = "*"
