[package]
name = "hub"
version = "0.1.0"
edition = "2021"
publish = false

[dependencies]
regex = "1"
serde = { version = "1", features = ["derive"] }
serde_json = "1"
clap = "4"
tokio = { version = "1", features = ["full"] }
futures = "0.3"
actix-web = { version = "4", default-features = false, features = ["macros"] }
reqwest = { version = "0.12", default-features = false }
env_logger = "0.11"
log = "0.4"
fs2 = "0.4"
bluer = { version = "0.17", features = ["bluetoothd"] }
