[package]
name = "async_buf_read"
version = "0.1.0"
edition = "2021"
publish = false

[dependencies]
bytes = "1"
pin-project-lite = "0.2"
tokio = { version = "1", default-features = false }
