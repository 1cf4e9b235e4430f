[package]
name = "travels"
version = "0.1.0"
edition = "2021"
publish = false

[dependencies]
chrono = "*"
urlencoding = "*"
serde = { version = "*", features = ["derive"] }
serde_json = "*"
httparse = "*"
num_cpus = "*"
threadpool = "*"
