[package]
name = "checkbox_sync"
version = "0.1.0"
edition = "2021"
publish = false

[dependencies]
dotenv = "0.15"
envy = "0.4"
futures = "0.3"
lazy_static = "1"
redis = { version = "0.25", features = ["tokio-comp"] }
serde = { version = "1", features = ["derive"] }
serde_json = "1"
tokio = { version = "1", features = ["full"] }
tokio-stream = "0.1"
warp = "0.3"
