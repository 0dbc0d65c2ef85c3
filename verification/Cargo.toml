[package]
name = "story_engine"
version = "0.1.0"
edition = "2021"
publish = false

[dependencies]
console_log = "1"
log = "0.4"
serde = { version = "1", features = ["derive"] }
serde_yaml = "0.9"
simple-log = "*"
