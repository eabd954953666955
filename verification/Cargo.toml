[package]
name = "protocol_store"
version = "0.1.0"
edition = "2021"
publish = false

[dependencies]
sled = "0.34"
sqlx = { version = "0.8", default-features = false, features = ["sqlite", "runtime-tokio"] }
