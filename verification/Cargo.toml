[package]
name = "cup"
version = "0.1.0"
edition = "2021"
publish = false

[dependencies]
anyhow = "1"
chrono = "0.4"
clap = { version = "4", features = ["cargo"] }
dialoguer = "0.11"
git2 = "0.18"
regex = "1"
serde = { version = "1", features = ["derive"] }
serde_yaml = "0.9"
termion = "2"
uuid = { version = "1", features = ["v4"] }
