[package]
name = "crystallized_time"
version = "0.1.0"
edition = "2021"
publish = false

[dependencies]
arc-swap = "1"
clap = { version = "4", features = ["derive"] }
crossterm = "0.28"
ctrlc = "3"
midir = "0.10"
rand = "0.8"
rand_distr = "0.4"
ratatui = "0.29"
rosc = "0.10"
serde = { version = "1", features = ["derive"] }
toml = "0.8"
