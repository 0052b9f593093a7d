[package]
name = "world_server"
version = "0.1.0"
edition = "2021"
publish = false

[dependencies]
hashbrown = "*"
rand = "0.8"
uuid = { version = "1", features = ["v4"] }
tokio = { version = "1", features = ["full"] }
tokio-tungstenite = "*"
futures = "0.3"
futures-util = { version = "0.3", features = ["sink"] }
deadqueue = { version = "*", features = ["unlimited"] }
timer = "*"
async-trait = "*"
lazy_static = "1"
anyhow = "1"
