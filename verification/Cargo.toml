[package]
name = "bridge_scrims"
version = "0.1.0"
edition = "2021"
publish = false

[dependencies]
regex = "1"
rand = "0.8"
time = "0.3"
base64 = "0.13"
serenity = "0.11"
tokio = { version = "1", features = ["full"] }
sqlx = { version = "0.7", default-features = false, features = ["runtime-tokio", "postgres", "time"] }
reqwest = { version = "0.11", default-features = false, features = ["json", "rustls-tls"] }
serde = { version = "1", features = ["derive"] }
serde_json = "1"
toml = "0.7"
tracing = "0.1"
tracing-subscriber = "0.3"
futures = "0.3"
lazy_static = "1"
chrono = "0.4"
