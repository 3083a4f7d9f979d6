[package]
name = "terminarium"
version = "0.3.0"
edition = "2021"
publish = false

[dependencies]
chrono = "=0.4.45"
crossterm = "=0.28.1"
ratatui = "=0.29.0"
