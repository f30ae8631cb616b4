[package]
name = "printhub"
version = "0.1.0"
edition = "2021"
publish = false

[dependencies]
anyhow = "1"
argon2 = "*"
axum = { version = "*", features = ["multipart"] }
bytes = "1"
clap = { version = "4", features = ["derive"] }
futures = "0.3"
getrandom = "*"
jiff = "0.2"
md-5 = "*"
png = "*"
pulldown-cmark = { version = "*", default-features = false, features = ["html"] }
reqwest = { version = "*", default-features = false, features = ["stream"] }
rumqttc = { version = "*", default-features = false }
rumqttd = { version = "*", default-features = false }
serde = { version = "1", features = ["derive"] }
serde_json = "1"
sha2 = "*"
sqlx = { version = "*", default-features = false, features = ["runtime-tokio", "sqlite", "migrate"] }
thiserror = "*"
tokio = { version = "1", features = ["full"] }
tokio-stream = { version = "0.1", features = ["sync"] }
tracing = "0.1"
tracing-subscriber = { version = "0.3", features = ["env-filter"] }
