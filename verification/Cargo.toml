[package]
name = "server-core"
version = "0.1.0"
edition = "2021"
publish = false

[dependencies]
actix-cors = "0.7"
actix-web = "4"
ahash = "0.8"
futures = "0.3"
log = "0.4"
lru = "0.7"
md5 = "0.7"
parking_lot = "0.12"
rayon = "1"
regex = "1"
serde = { version = "1", features = ["derive"] }
serde_json = "1"
serde_urlencoded = "0.7"
