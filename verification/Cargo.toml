[package]
name = "piw_pew"
version = "0.1.0"
edition = "2021"
publish = false

[dependencies]
rand = "0.8"
nalgebra = "0.32"
renet = "0.0.15"
rmp-serde = "1"
serde = { version = "1", features = ["derive"] }
log = "0.4"
env_logger = "0.10"
