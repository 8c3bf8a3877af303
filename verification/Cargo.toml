[package]
name = "store_fingerprint"
version = "0.1.0"
edition = "2021"
publish = false

[dependencies]
bb8-redis = "*"
redis = { version = "*", features = ["tokio-comp"] }
tokio = { version = "*", features = ["full"] }
futures = "*"
getopts = "*"
