[package]
name = "hew"
version = "0.1.0"
edition = "2021"
publish = false

[dependencies]
anyhow = "1"
clap = { version = "4", features = ["derive"] }
crossterm = "0.28"
git2 = { version = "0.20", default-features = false }
libc = "0.2"
patch = "0.7"
ratatui = "0.29"
serde = { version = "1", features = ["derive"] }
serde_json = "1"
similar = "2"
syntect = { version = "5", default-features = false, features = ["default-fancy"] }
tui-textarea = "0.7"
two-face = { version = "0.4", default-features = false, features = ["syntect-fancy"] }
unicode-width = "0.2"
uuid = { version = "1", features = ["v4", "serde"] }
