[package]
name = "primitive_archiver"
version = "0.1.0"
edition = "2021"
publish = false

[dependencies]
async-compression = { version = "0.4", features = ["tokio", "deflate"] }
bytes = "1"
tokio = { version = "1", features = ["io-util"] }
