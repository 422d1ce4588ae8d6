[package]
name = "calc"
version = "0.1.0"
edition = "2021"
publish = false

[dependencies]
ansi_term = "=0.12.1"
confy = "=2.0.0"
linefeed = "=0.6.0"
serde = { version = "=1.0.229", features = ["derive"] }
