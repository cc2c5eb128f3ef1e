[package]
name = "bench_bot"
version = "0.1.0"
edition = "2021"
publish = false

[dependencies]
sysinfo = "0.29"
clap = { version = "4", features = ["derive"] }
serde = { version = "1", features = ["derive"] }
toml = "0.5"
log = "0.4"
env_logger = "0.10"
