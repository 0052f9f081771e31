[package]
name = "qable"
version = "0.1.0"
edition = "2021"
publish = false

[dependencies]
clap = "*"
csv = "*"
serde = { version = "*", features = ["derive"] }
serde_json = "*"
ureq = "*"
