[package]
name = "dropper"
version = "0.1.0"
edition = "2021"
publish = false

[dependencies]
regex = "*"
reqwest = { version = "*", default-features = false, features = ["blocking"] }
scraper = "*"
yaml-rust = "*"
