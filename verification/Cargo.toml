[package]
name = "duty_roster"
version = "0.1.0"
edition = "2021"
publish = false

[dependencies]
chrono = { version = "0.4", features = ["serde"] }
clap = { version = "4", features = ["derive"] }
csv = "1"
iced = { version = "0.12", default-features = false }
rand = "0.9"
serde = { version = "1", features = ["derive"] }
tokio = { version = "1", features = ["time"] }
toml = "0.8"
