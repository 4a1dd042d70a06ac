[package]
name = "pet"
version = "0.1.0"
edition = "2021"
publish = false

[dependencies]
anyhow = "1"
arboard = "3"
clap = { version = "4", features = ["derive"] }
clap_complete = "4"
crossterm = "0.28"
dialoguer = "0.11"
dirs = "5"
fuzzy-matcher = "0.3"
owo-colors = { version = "4", features = ["supports-colors"] }
ratatui = "0.29"
serde = { version = "1", features = ["derive"] }
serde_json = "1"
thiserror = "2"
toml = "0.8"
ureq = { version = "2", features = ["json"] }

[dev-dependencies]
tempfile = "3"
