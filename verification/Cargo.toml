[package]
name = "risty"
version = "0.1.0"
edition = "2021"
publish = false

[dependencies]
anyhow = "1"
clap = { version = "4", features = ["derive"] }
num = "0.4"
rand = "0.8"
ringbuffer = "0.15"
thiserror = "1"
