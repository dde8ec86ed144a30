[package]
name = "wiki_tui"
version = "0.1.0"
edition = "2021"
publish = false

[dependencies]
textwrap = "0.16"
ratatui = "0.29"
tui-input = "0.11"
crossterm = "0.28"
tokio = { version = "1", default-features = false, features = ["sync"] }
anyhow = "1"
