[package]
name = "ironclaw"
version = "0.1.0"
edition = "2021"
publish = false

[dependencies]
anyhow = "1"
landlock = "*"
serde = { version = "1", features = ["derive"] }
tracing = "0.1"
which = "*"
