[package]
name = "orion_lib"
version = "0.1.0"
edition = "2021"
publish = false

[dependencies]
http = "=1.5.0"
rand = "=0.8.8"
compact_str = "=0.8.2"
tokio = { version = "=1.54.1", features = ["sync", "time", "rt"] }
lru_time_cache = "0.11"
