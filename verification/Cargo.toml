[package]
name = "database"
version = "0.1.0"
edition = "2021"
publish = false

[dependencies]
ahash = "0.8"
chrono = "0.4"
hashbrown = "*"
parking_lot = "0.12"
rust_decimal = "1"
rustc-hash = "2"
serde_json = "1"
uuid = "1"
