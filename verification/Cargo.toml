[package]
name = "differ"
version = "0.1.0"
edition = "2021"
publish = false

[dependencies]
anyhow = "1"
clap = { version = "4", features = ["derive"] }
crossterm = "0.28"
dirs = "5"
git2 = { version = "0.19", default-features = false }
notify = "6"
ratatui = "0.29"
regex = "1"
rusqlite = { version = "0.31", features = ["bundled"] }
serde = { version = "1", features = ["derive"] }
serde_json = "1"
sha2 = "0.10"
similar = "2"
syntect = "5"
syntect-assets = "0.23"
toml = "0.8"
tui-textarea = "0.7"
unicode-width = "0.2"

[dev-dependencies]
tempfile = "3"
