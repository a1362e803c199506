[package]
name = "container_logs"
version = "0.1.0"
edition = "2021"
publish = false

[dependencies]
clap = { version = "4", features = ["derive"] }
colored = "2"
crossterm = "0.28"
docker-api = "0.14"
futures = "0.3"
ratatui = "0.29"
regex = "1"
tokio = { version = "1", features = ["full"] }
unicode-width = "0.2"
