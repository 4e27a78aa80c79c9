[package]
name = "byzer_shell"
version = "0.1.0"
edition = "2021"
publish = false

[dependencies]
clap = { version = "=4.6.7", features = ["derive"] }
comfy-table = "=7.2.2"
indicatif = "=0.18.6"
reqwest = { version = "=0.13.5", default-features = false, features = ["blocking", "form"] }
rustyline = "=18.0.1"
rustyline-derive = "=0.12.0"
serde_json = "=1.0.151"
yaml-rust = "=0.4.5"
