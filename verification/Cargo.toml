[package]
name = "snake_quiz"
version = "0.1.0"
edition = "2021"
publish = false

[dependencies]
crossterm = "*"
rand = "*"
serde = { version = "1", features = ["derive"] }
serde_json = "1"
