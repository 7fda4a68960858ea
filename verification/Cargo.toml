[package]
name = "qrsnap"
version = "0.1.0"
edition = "2021"
publish = false

[dependencies]
url = "2"
urlencoding = "2"
opener = "*"
tempfile = "3"
dirs = "*"
serde = { version = "1", features = ["derive"] }
serde_json = "1"
