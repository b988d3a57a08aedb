[package]
name = "inlinable_string"
version = "0.1.0"
edition = "2021"
publish = false

[dependencies]
serde = "1.0"

[dev-dependencies]
serde_test = "1.0"
