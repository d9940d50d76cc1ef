[package]
name = "block_executor"
version = "0.1.0"
edition = "2021"
publish = false

[dependencies]
num_cpus = "1"
rand = "0.7.3"
serde_yaml = "0.8"
regex = "1"
chrono = "0.4"
once_cell = "1"
dashmap = "5"
clap = { version = "4", features = ["derive"] }
serde = { version = "1", features = ["derive"] }
anyhow = "1"
url = "2"
tokio = { version = "1", features = ["full"] }
rayon = "1"
