[package]
name = "tinker"
version = "0.1.0"
edition = "2021"
publish = false

[dependencies]
axum = "0.7"
chrono = "0.4"
chrono-tz = "0.8"
clap = "4"
dotenv = "0.15"
env_logger = "0.11"
log = "0.4"
reqwest = { version = "0.12", default-features = false, features = ["json", "rustls-tls"] }
resvg = "0.35"
serde = { version = "1", features = ["derive"] }
serde_json = "1"
tiny-skia = "0.10"
tokio = { version = "1", features = ["full"] }
usvg = "0.35"

[dev-dependencies]
bitvec = "1"
