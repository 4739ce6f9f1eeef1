[package]
name = "pointer_chain"
version = "0.1.0"
edition = "2021"
publish = false

[dependencies]
capstone = "*"
libc = "0.2"
regex = "1"
regex-syntax = "0.8"
serde = { version = "1", features = ["derive"] }
serde_json = "1"
