[package]
name = "tui_chat"
version = "0.1.0"
edition = "2021"

[dependencies]
crossterm = "*"
ratatui = "*"
textwrap = "*"
