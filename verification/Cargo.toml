[package]
name = "mafia"
version = "0.1.0"
edition = "2021"
publish = false

[dependencies]
rand = "0.7"
rand_core = "0.5"
rand_xoshiro = "0.4"
serde = { version = "1", features = ["derive"] }
ron = "0.6"
log = "0.4"
env_logger = "0.7"
structopt = "0.3"
termion = "1.5"
tokio = { version = "0.2", features = ["full"] }
tui = "0.9"
