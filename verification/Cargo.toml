[package]
name = "snake_client"
version = "0.1.0"
edition = "2021"
publish = false

[dependencies]
termion = "1.5"
serde = { version = "1", features = ["derive"] }
serde_json = "1"
chrono = "0.4"
