[package]
name = "colligo"
version = "0.1.0"
edition = "2021"
publish = false

[dependencies]
clap = "*"
tokio = { version = "*", features = ["rt-multi-thread", "process", "sync", "time", "io-util", "macros"] }
indicatif = "*"
log = "*"
simple_logger = "*"
pathdiff = "*"
