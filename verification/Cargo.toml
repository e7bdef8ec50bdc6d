[package]
name = "indy_vdr"
version = "0.1.0"
edition = "2021"
publish = false

[dependencies]
sha2 = "0.10"
hyper = "0.13"
tokio = { version = "0.2", features = ["rt-core", "rt-util", "tcp", "time", "sync", "io-util"] }
env_logger = "0.7"
log = "0.4"
