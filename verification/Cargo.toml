[package]
name = "goctl_rs"
version = "0.1.1"
edition = "2021"
publish = false

[dependencies]
clap = { version = "4", features = ["derive"] }
indexmap = "2"
logos = "0.14"
nom = "7"
serde = { version = "1", features = ["derive"] }
serde_json = "1"
thiserror = "1"
