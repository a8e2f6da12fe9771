[package]
name = "nowplaying"
version = "0.1.0"
edition = "2021"
publish = false

[dependencies]
dotenvy = "*"
image = { version = "*", default-features = false, features = ["png", "jpeg", "webp"] }
lofty = "*"
parking_lot = "*"
reqwest = "*"
rspotify = "*"
serde = { version = "*", features = ["derive"] }
serde_json = "*"
tokio = { version = "*", features = ["rt-multi-thread", "macros", "sync", "time"] }
tokio-util = "*"
walkdir = "*"
