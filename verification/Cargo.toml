[package]
name = "lru_ttl_cache"
version = "0.1.0"
edition = "2021"

[dependencies]
lru = "0.12"
