[package]
name = "ingest_api"
version = "0.1.0"
edition = "2021"
publish = false

[dependencies]
chrono = { version = "0.4", default-features = false, features = ["clock", "std"] }
uuid = { version = "1", features = ["v4"] }
sha2 = "0.10"
hex = "0.4"
rand = "0.8"
urlencoding = "2"
serde = { version = "1", features = ["derive"] }
serde_json = "1"
actix-web = { version = "4", default-features = false }
tokio = { version = "1", features = ["macros", "rt-multi-thread", "time"] }
redis = { version = "0.27", default-features = false, features = ["aio", "tokio-comp", "connection-manager", "streams"] }
reqwest = { version = "0.12", default-features = false }
moka = { version = "0.12", features = ["future"] }
jsonwebtoken = "9"
dotenv = "0.15"
env_logger = { version = "0.11", default-features = false }
log = "0.4"
