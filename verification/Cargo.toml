[package]
name = "basalytics"
version = "0.1.0"
edition = "2021"
publish = false

[dependencies]
anyhow = "1"
async-trait = "0.1"
async_once = "*"
axum = "0.6"
base64 = "0.21"
chrono = "0.4"
clap = { version = "4", features = ["derive"] }
dotenv = "0.15"
futures = "0.3"
getrandom = "0.2"
http = "0.2"
jsonwebtoken = "8"
lazy_static = "1"
password-auth = "*"
rand = { version = "0.8", features = ["small_rng"] }
rust-embed-for-web = "*"
sea-orm = { version = "0.11", default-features = false, features = ["macros", "sqlx-sqlite", "runtime-tokio-rustls"] }
sea-orm-migration = { version = "0.11", default-features = false, features = ["sqlx-sqlite", "runtime-tokio-rustls"] }
sea-query = { version = "0.28", default-features = false, features = ["backend-sqlite"] }
serde = { version = "1", features = ["derive"] }
serde_json = "1"
sha2 = "0.10"
tokio = { version = "1", features = ["full"] }
tower-http = { version = "0.4", features = ["cors"] }
ulid = "1"
user-agent-parser = "*"
