[package]
name = "stagehand"
version = "0.1.0"
edition = "2021"
publish = false

[dependencies]
sacn = "*"
serde = { version = "1", features = ["derive"] }
toml = "*"
clap = { version = "4", features = ["derive"] }
ratatui = "*"
strum = { version = "*", features = ["derive"] }
thiserror = "*"
tracing = "0.1"
tracing-subscriber = "0.3"
anyhow = "1"

[dev-dependencies]
nom = "8"
