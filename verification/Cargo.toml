[package]
name = "dsv"
version = "0.1.0"
edition = "2021"
publish = false

[dependencies]
anyhow = "*"
bytemuck = { version = "*", features = ["derive"] }
env_logger = "*"
log = "*"
mio = { version = "*", features = ["net", "os-poll"] }
serde = { version = "*", features = ["derive"] }
toml = "*"
