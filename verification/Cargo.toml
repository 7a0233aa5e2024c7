[package]
name = "openclaw_manager"
version = "0.1.0"
edition = "2021"
publish = false

[dependencies]
dirs = "5"
log = "0.4"
serde_json = "1"
