[package]
name = "shellbags"
version = "0.1.0"
edition = "2021"
publish = false

[dependencies]
uuid = "*"
sha2 = "*"
hex = "*"
flate2 = "*"
base64 = "*"
serde = { version = "*", features = ["derive"] }
serde_json = "*"
