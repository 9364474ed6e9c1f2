[package]
name = "todoist_tui"
version = "0.1.0"
edition = "2021"
publish = false

[dependencies]
anyhow = "*"
chrono = { version = "*", features = ["serde"] }
clap = { version = "*", features = ["derive"] }
crossterm = "*"
dirs = "*"
ratatui = "*"
reqwest = { version = "*", default-features = false, features = ["json"] }
serde = { version = "*", features = ["derive"] }
serde_json = "*"
smart-date = "*"
tokio = { version = "*", features = ["rt-multi-thread", "macros"] }
toml = "*"
tui-input = "*"
uuid = { version = "*", features = ["v4"] }
