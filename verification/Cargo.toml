[package]
name = "send_all_rs"
version = "0.1.0"
edition = "2021"
publish = false

[dependencies]
anyhow = "1"
chrono = "0.4"
clap = { version = "4", features = ["derive"] }
csv = "1"
dirs = "*"
env_logger = "*"
indicatif = "*"
lettre = "0.11"
log = "0.4"
mime_guess = "2"
rpassword = "*"
serde = { version = "1", features = ["derive"] }
serde_json = "1"
tokio = { version = "1", features = ["macros", "rt-multi-thread", "time"] }
toml = "*"
