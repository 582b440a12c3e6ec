[package]
name = "puzzlemoredays"
version = "0.1.0"
edition = "2021"
publish = false

[dependencies]
tokio-util = "*"
tokio = { version = "*", features = ["rt-multi-thread"] }
once_cell = "*"
