[package]
name = "git_tui"
version = "0.1.0"
edition = "2021"
publish = false

[dependencies]
anyhow = "1"
crossterm = "0.28"
pulldown-cmark = "0.12"
ratatui = "0.29"
serde = { version = "1", features = ["derive"] }
similar = "2"
syntect = { version = "5", default-features = false, features = ["default-fancy"] }
toml = "0.8"
unicode-width = "0.2"
