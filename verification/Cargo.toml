[package]
name = "moho"
version = "0.1.0"
edition = "2021"
publish = false

[dependencies]
clap = { version = "3.2", features = ["derive"] }
color-eyre = "0.6"
edit = "0.1"
rustyline = "10"
serde = "1"
serde_derive = "1"
toml = "0.5"
