[package]
name = "vecfit"
version = "0.1.1"
edition = "2021"
publish = false

[dependencies]
csv = "1"
faer = "0.22"
num-complex = { version = "0.4", features = ["serde"] }
serde = { version = "1", features = ["derive"] }
serde_json = "1"
thiserror = "2"
