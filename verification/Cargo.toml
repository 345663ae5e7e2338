[package]
name = "byteback"
version = "0.1.0"
edition = "2021"
publish = false

[dependencies]
anyhow = "1"
clap = { version = "4", features = ["derive"] }
crossterm = "0.28"
directories = "6"
humansize = "2"
jwalk = "0.8"
ratatui = "0.29"
rayon = "1"
serde = { version = "1", features = ["derive"] }
toml = "0.8"
trash = "5"
tui-input = "0.11"
