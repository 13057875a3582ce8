[package]
name = "pystack"
version = "0.1.0"
edition = "2021"
publish = false

[dependencies]
anyhow = "1"
remoteprocess = "*"
serde = { version = "1", features = ["derive", "rc"] }
serde_derive = "1"
