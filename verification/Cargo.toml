[package]
name = "genshin_dictionary"
version = "0.1.0"
edition = "2021"
publish = false

[dependencies]
anyhow = "1"
quick-xml = "0.31"
reqwest = { version = "0.11", default-features = false, features = ["rustls-tls"] }
tempfile = "3"
tokio = { version = "1", features = ["full"] }
