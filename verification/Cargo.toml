[package]
name = "celestus"
version = "0.1.0"
edition = "2021"
publish = false

[dependencies]
lru = "*"
serde = { version = "*", features = ["derive"] }
serde_json = "*"
dotenvy = "*"
log = "*"
env_logger = "*"
anyhow = "*"
procfs = "*"
tokio = { version = "*", features = ["rt"] }
vaultrs = "*"
vaultrs-login = "*"
diesel = { version = "*", features = ["postgres", "uuid", "serde_json", "r2d2"] }
uuid = { version = "*", features = ["v4", "serde"] }
