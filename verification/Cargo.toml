[package]
name = "todotui"
version = "0.1.0"
edition = "2021"
publish = false

[dependencies]
chrono = "0.4"
serde = { version = "1", features = ["derive"] }
toml = "0.8"
rusqlite = { version = "0.32", features = ["bundled"] }
crossterm = "0.28"
ratatui = "0.29"
directories = "5"
anyhow = "1"
thiserror = "1"
