[package]
name = "bakery"
version = "0.1.0"
edition = "2021"
publish = false

[dependencies]
colored = "2"
html-escape = "0.2"
rand = "0.9"
regex = "1"
reqwest = { version = "0.12", features = ["blocking"] }
serde_json = "1"
