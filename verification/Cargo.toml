[package]
name = "scout"
version = "0.1.0"
edition = "2021"
publish = false

[dependencies]
cidr = "*"
clap = { version = "4", features = ["derive"] }
comfy-table = "*"
getifs = "*"
indicatif = "*"
num_cpus = "*"
ratatui = "*"
tokio = { version = "1", features = ["full"] }
