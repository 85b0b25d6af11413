[package]
name = "response_compression"
version = "0.1.0"
edition = "2021"
publish = false

[dependencies]
bytes = "*"
compression-codecs = { version = "*", features = ["zstd", "brotli", "gzip", "deflate"] }
compression-core = "*"
http = "*"
http-body = "*"
pin-project-lite = "*"
tower = "*"
