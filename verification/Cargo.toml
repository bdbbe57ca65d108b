[package]
name = "wrwr_rtp"
version = "0.1.0"
edition = "2021"
publish = false

[dependencies]
chrono = "0.4"
rand = "0.8"
failure = "0.1"
thiserror = "1"
serde = "1"
