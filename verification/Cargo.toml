[package]
name = "docs_fetcher"
version = "0.1.0"
edition = "2021"
publish = false

[dependencies]
reqwest = { version = "0.12", default-features = false, features = ["rustls-tls"] }
rustdoc-types = "0.61"
serde_json = "1"
tracing = "0.1"
zstd = "0.13"
