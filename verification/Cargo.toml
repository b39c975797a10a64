[package]
name = "vscer"
version = "0.1.0"
edition = "2021"
publish = false

[dependencies]
clap = { version = "4", features = ["derive"] }
indexmap = "2"
indicatif = "0.17"
inquire = "0.7"
reqwest = { version = "0.12", features = ["blocking", "json"] }
serde_json = "1"
