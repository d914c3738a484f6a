[package]
name = "tokyo"
version = "0.1.0"
edition = "2021"
publish = false

[dependencies]
rand = "0.6"
euclid = "0.19"
serde = { version = "1", features = ["derive"] }
serde_derive = "1"
serde_json = "1"
actix = "0.7"
actix-web = { version = "0.7", default-features = false }
futures = "0.1"
tokio = "0.1"
tokio-tungstenite = { version = "0.6", default-features = false, features = ["connect"] }
url = "1.7"
failure = "0.1"
ratelimit_meter = "4"
spin_sleep = "0.3"
listenfd = "0.3"
dotenv = "0.13"
envy = "0.3"
env_logger = "0.6"
log = "0.4"
lazy_static = "1"
text_io = "0.1"
