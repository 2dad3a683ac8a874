[package]
name = "contact_service"
version = "0.1.0"
edition = "2021"
publish = false

[dependencies]
actix-web = "4"
anyhow = "1"
chrono = "0.4"
dotenv = "0.15"
env_logger = "*"
lazy_static = "1"
lettre = "0.11"
once_cell = "1"
serde = { version = "1", features = ["derive"] }
tokio = { version = "1", features = ["rt-multi-thread", "macros", "time"] }
tracing = "0.1"
tracing-subscriber = "0.3"
