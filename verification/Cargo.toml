[package]
name = "thumb_queue"
version = "0.1.0"
edition = "2021"
publish = false

[dependencies]
rand = "0.8"
axum = { version = "0.7", features = ["multipart"] }
tokio = { version = "1", features = ["full"] }
redis = "0.25"
image = { version = "0.24", default-features = false, features = ["png", "jpeg"] }
sqlx = { version = "0.7", default-features = false, features = ["mysql", "runtime-tokio"] }
dotenvy = "0.15"
serde_json = "1"
