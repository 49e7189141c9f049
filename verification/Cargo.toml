[package]
name = "dev_shm_server"
version = "0.1.0"
edition = "2021"
publish = false

[dependencies]
ctrlc = "3"
env_logger = "0.11"
log = "0.4"
memmap2 = "0.9"
serde_json = "1"
thiserror = "1"
tokio = { version = "1", features = ["rt", "sync", "macros"] }
tokio-stream = "0.1"
tonic = "0.12"
