[package]
name = "route_rs"
version = "0.1.0"
edition = "2021"
publish = false

[dependencies]
anyhow = "1"
chrono = "0.4"
clap = { version = "4", features = ["derive"] }
colored = "*"
glob = "0.3"
indicatif = "0.17"
netcdf = "*"
num_cpus = "1"
rusqlite = "*"
serde = { version = "1", features = ["derive"] }
serde_json = "1"
serde_yaml = "0.9"
