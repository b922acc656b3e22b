[package]
name = "matrix_pool"
version = "0.1.0"
edition = "2021"
publish = false

[dependencies]
oneshot = { version = "=0.2.1", features = ["std"] }
dashmap = "=6.2.1"
