[package]
name = "knightverse"
version = "0.1.0"
edition = "2021"
publish = false

[dependencies]
regex = "1"
shakmaty = "0.27"
actix = "0.13"
actix-web = "4"
actix-cors = "0.7"
once_cell = "1"
prometheus = { version = "0.13", default-features = false }
redis = { version = "0.24", features = ["tokio-comp"] }
deadpool-redis = "0.14"
serde = { version = "1", features = ["derive"] }
serde_json = "1"
tokio = { version = "1", features = ["full"] }
tracing = "0.1"
tracing-subscriber = { version = "0.3", features = ["env-filter", "json"] }
tracing-actix-web = "0.7"
futures-util = "0.3"
dotenv = "0.15"
soroban-sdk = "21"
thiserror = "1"
