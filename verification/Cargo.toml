[package]
name = "artifact_store"
version = "0.1.0"
edition = "2021"
publish = false

[dependencies]
chrono = "0.4"
clap = { version = "4", features = ["derive"] }
dotenv = "0.15"
hostname = "0.3"
rocket = { version = "0.5", features = ["json"] }
tracing = "0.1"
tracing-subscriber = "0.3"
