[package]
name = "pop_tiler"
version = "0.1.0"
edition = "2021"
publish = false

[dependencies]
either = "1"
serde = { version = "1", features = ["derive"] }
serde_json = "1"
thiserror = "1"
async-channel = "1"
async-io = "1"
async-oneshot = "0.5"
futures-lite = "1"
