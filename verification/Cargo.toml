[package]
name = "nerve-tmux-surface"
version = "0.1.0"
edition = "2021"
publish = false

[dependencies]
unicode-width = "0.2"
time = { version = "0.3", features = ["parsing", "formatting", "macros"] }
rustix = { version = "*", features = ["process"] }
serde = { version = "1", features = ["derive"] }
serde_json = "1"
ratatui = "*"
crossterm = "*"
