[package]
name = "bdtv_hub"
version = "0.1.0"
edition = "2021"
publish = false

[dependencies]
anyhow = "=1.0.104"
axum = { version = "=0.8.9", features = ["ws"] }
azalea-chat = "=0.16.0"
dotenvy = "=0.15.7"
kyori-component-json = "=0.2.1"
onebot_v11 = "=0.1.5"
regex = "=1.13.1"
serde = { version = "=1.0.229", features = ["derive"] }
serde_json = "=1.0.154"
serde_norway = "=0.9.42"
tokio = { version = "=1.54.1", features = ["full"] }
tokio-util = "=0.7.20"
tracing = "=0.1.44"
tracing-subscriber = "=0.3.23"
uuid = { version = "=1.29.0", features = ["serde"] }
