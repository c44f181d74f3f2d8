[package]
name = "ragger_api"
version = "0.1.0"
edition = "2021"
publish = false

[dependencies]
chrono = "0.4"
clap = "3"
diesel = { version = "1.4", features = ["sqlite"] }
dotenv = "0.15"
rand = "0.8"
reqwest = { version = "0.11", features = ["blocking"] }
rust-crypto = "0.2"
serde = { version = "1", features = ["derive"] }
serde_json = "1"
termion = "1"
uuid = { version = "0.8", features = ["v4"] }
