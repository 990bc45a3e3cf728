[package]
name = "moco"
version = "0.1.0"
edition = "2021"
publish = false

[dependencies]
anyhow = "1"
chrono = { version = "0.4", features = ["serde"] }
clap = { version = "4", features = ["derive"] }
crossterm = "0.28"
directories = "5"
gix = { version = "0.66", default-features = false }
ratatui = "0.29"
redb = "2"
serde = { version = "1", features = ["derive"] }
serde_json = "1"
thiserror = "1"
toml = "0.8"
tui-textarea = "0.7"
uuid = { version = "1", features = ["v4", "serde"] }
