[package]
name = "nanobot"
version = "0.1.0"
edition = "2021"
publish = false

[dependencies]
serde_json = { version = "1", features = ["preserve_order"] }
serde = { version = "1", features = ["derive"] }
indexmap = { version = "1.9", features = ["serde"] }
toml = "0.7"
sqlx = { version = "0.6", default-features = false, features = ["runtime-async-std-rustls", "any", "sqlite"] }
ontodev_valve = "*"
axum = "0.6"
tokio = { version = "1", features = ["full"] }
clap = { version = "4", features = ["cargo"] }
async-std = { version = "1", features = ["attributes"] }
tracing = "0.1"
tracing-subscriber = "0.3"
