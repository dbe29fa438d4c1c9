[package]
name = "cmdnavi"
version = "1.0.0"
edition = "2021"
publish = false

[dependencies]
serde = { version = "1", features = ["derive"] }
shell-words = "1"
yaml_serde = "*"
