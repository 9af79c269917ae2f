[package]
name = "fi_slurm"
version = "0.1.0"
edition = "2021"
publish = false

[dependencies]
regex = "=1.13.1"
chrono = "=0.4.45"
colored = "=2.2.0"
reqwest = { version = "=0.12.28", default-features = false, features = ["blocking"] }
serde = { version = "=1.0.229", features = ["derive"] }
serde_json = "=1.0.154"
users = "=0.11.0"
clap = { version = "=4.6.7", features = ["derive"] }
ratatui = "0.29"
crossterm = "0.28"
