[package]
name = "seshat-index"
version = "0.1.0"
edition = "2021"
publish = false

[dependencies]
tantivy = "*"
lru-cache = "0.1"
uuid = { version = "1", features = ["v4"] }

[dev-dependencies]
tempfile = "3"
