[package]
name = "dedup_cache"
version = "0.1.0"
edition = "2021"
publish = false

[dependencies]
lru = "=0.12.5"
tokio = { version = "=1.54.1", features = ["sync", "rt", "rt-multi-thread", "time"] }
futures = "=0.3.34"
tracing = "=0.1.44"
tracing-core = "=0.1.36"
tracing-subscriber = { version = "0.3", default-features = false, features = ["registry", "std"] }
rand = "0.8"
url = "=2.5.8"
