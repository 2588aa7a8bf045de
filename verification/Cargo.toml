[package]
name = "einkdash"
version = "0.1.0"
edition = "2021"
publish = false

[dependencies]
base64 = "*"
chrono = "*"
ical = "*"
image = { version = "*", default-features = false, features = ["png"] }
resvg = "*"
tiny-skia = "*"
usvg = "*"
async-std = "*"
env_logger = "*"
futures = "*"
log = "*"
reqwest = { version = "*", default-features = false, features = ["json"] }
serde = { version = "*", features = ["derive"] }
serde_json = "*"
tokio = { version = "*", default-features = false, features = ["rt-multi-thread", "macros", "time", "fs", "io-util"] }
