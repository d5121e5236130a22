[package]
name = "tether_timeline"
version = "0.1.0"
edition = "2021"
publish = false

[dependencies]
clap = { version = "4", features = ["derive"] }
iron = "0.6"
log = "0.4"
mount = "0.4"
pretty_env_logger = "*"
rmp-serde = "1"
serde = { version = "1", features = ["derive"] }
serde_json = "1"
signal-hook = "0.3"
staticfile = "0.5"
tether-agent = "*"
