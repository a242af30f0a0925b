[package]
name = "nhk_text"
version = "0.1.0"
edition = "2021"
publish = false

[dependencies]
scraper = "*"
ego-tree = "*"
reqwest = { version = "*", default-features = false, features = ["blocking"] }
