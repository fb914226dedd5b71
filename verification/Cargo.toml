[package]
name = "bunnysync"
version = "0.1.0"
edition = "2021"
publish = false

[dependencies]
anyhow = "=1.0.104"
chrono = { version = "=0.4.45", features = ["serde"] }
clap = { version = "=4.6.7", features = ["derive", "env"] }
glob-match = "=0.2.1"
serde = { version = "=1.0.229", features = ["derive"] }
toml = "=1.1.8"
ureq = { version = "=3.5.0", features = ["json"] }
walkdir = "=2.5.0"
