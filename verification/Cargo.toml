[package]
name = "tracing-build-script"
version = "0.1.0"
edition = "2021"
publish = false

[dependencies]
tracing = { version = "0.1", default-features = false, features = ["std"] }
tracing-subscriber = { version = "0.3", default-features = false, features = ["fmt", "std"] }
