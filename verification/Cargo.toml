[package]
name = "http_cache_semantics"
version = "0.1.0"
edition = "2021"
publish = false

[dependencies]
http = "*"

[dev-dependencies]
chrono = "*"
