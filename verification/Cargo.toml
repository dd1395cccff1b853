[package]
name = "raw"
version = "0.2.6"
edition = "2021"
publish = false

[dependencies]
anyhow = "1"
flate2 = "1"
git2 = { version = "0.19", default-features = false }
goblin = "0.8"
hex = "0.4"
indicatif = "0.17"
recursive_copy = "*"
reqwest = { version = "0.12", default-features = false, features = ["blocking", "rustls-tls"] }
sha2 = "0.10"
tar = "0.4"
tokio = { version = "1", features = ["rt-multi-thread"] }
walkdir = "2"
