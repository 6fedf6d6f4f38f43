[package]
name = "resgen"
version = "0.1.0"
edition = "2021"
publish = false

[dependencies]
rand = "*"
tokio = { version = "*", features = ["rt", "fs", "io-util"] }
