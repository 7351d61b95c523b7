[package]
name = "chkobba"
version = "0.1.0"
edition = "2021"
publish = false

[dependencies]
colored = "3"
crossterm = "*"
itertools = "0.14"
rand = "0.9"
rodio = "*"
serde = { version = "1", features = ["derive"] }
serde_json = "1"
