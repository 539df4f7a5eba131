[package]
name = "omnissiatac"
version = "0.1.0"
edition = "2021"
publish = false

[dependencies]
anyhow = "=1.0.104"
argon2 = { version = "=0.5.3", features = ["std"] }
axum = "=0.8.9"
axum-extra = { version = "=0.10.3", features = ["cookie"] }
chrono = "=0.4.45"
dashmap = "=6.2.1"
dotenvy = "=0.15.7"
feed-rs = "=2.4.0"
jsonwebtoken = "=9.3.1"
lavalink-rs = { version = "=0.14.3", features = ["serenity", "songbird"] }
rand = "=0.9.5"
reqwest = { version = "=0.12.28", default-features = false, features = ["json", "rustls-tls"] }
rustls = "=0.23.46"
serde = { version = "=1.0.229", features = ["derive"] }
serde_json = "=1.0.154"
serenity = "=0.12.5"
songbird = { version = "=0.5.0", default-features = false, features = ["serenity", "gateway"] }
thiserror = "=2.0.21"
tokio = { version = "=1.54.1", features = ["full"] }
toml = "=0.8.23"
tower-http = { version = "=0.6.11", features = ["fs"] }
tracing = "=0.1.44"
tracing-subscriber = { version = "=0.3.23", features = ["env-filter"] }
urlencoding = "=2.1.3"
whatlang = "=0.16.4"
