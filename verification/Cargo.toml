[package]
name = "reckoning"
version = "0.1.0"
edition = "2021"
publish = false

[dependencies]
anyhow = "1"
clap = { version = "4", features = ["derive"] }
csv = "1"
exitcode = "1"
itertools = "0.14"
serde = { version = "1", features = ["derive"] }
