[package]
name = "welcome_bot"
version = "0.1.0"
edition = "2021"
publish = false

[dependencies]
anyhow = "=1.0.104"
dotenvy = "=0.15.7"
ruma = { version = "=0.17.2", default-features = false, features = ["compat-arbitrary-length-ids"] }
serde_json = "=1.0.154"
tokio = { version = "=1.54.1", features = ["macros", "rt-multi-thread"] }
tracing-subscriber = { version = "=0.3.23", default-features = false, features = ["fmt", "std"] }
