[package]
name = "sipcord_bridge"
version = "0.1.0"
edition = "2021"
publish = false

[dependencies]
async-trait = "*"
audioadapter = "2.0"
audioadapter-buffers = "2.0"
crossbeam-channel = "*"
crossbeam-queue = "*"
dashmap = "6"
dotenvy = "*"
envy = "*"
image = { version = "0.25", default-features = false }
ipnet = "*"
parking_lot = "*"
rand = "0.9"
rtrb = "0.3"
rubato = "1.0"
serde = { version = "*", features = ["derive"] }
spandsp = "*"
symphonia = { version = "0.5", default-features = false, features = ["flac", "wav", "pcm"] }
thiserror = "*"
tokio = { version = "*", features = ["full"] }
tokio-util = "*"
toml = "*"
tracing = "*"
tracing-subscriber = { version = "*", features = ["env-filter"] }
udptl = "*"
