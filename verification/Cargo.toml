[package]
name = "awesome_rust"
version = "0.1.0"
edition = "2021"
publish = false

[dependencies]
clap = "4"
directories = "*"

[dev-dependencies]
serde_json = "1"
