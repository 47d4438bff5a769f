[package]
name = "emu_check"
version = "0.1.0"
edition = "2021"
publish = false

[dependencies]
async-std = { version = "1", features = ["attributes"] }
clap = "2"
console = "0.15"
csv = "1"
dirs = "*"
log = "0.4"
serde = { version = "1", features = ["derive"] }
simple_logger = "1"
