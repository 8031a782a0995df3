[package]
name = "symbology"
version = "0.1.0"
edition = "2021"
publish = false

[dependencies]
fancy-regex = "*"
chrono = { version = "0.4", default-features = false, features = ["std"] }
