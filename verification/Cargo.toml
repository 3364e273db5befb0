[package]
name = "chirp_relay"
version = "0.1.0"
edition = "2021"
publish = false

[dependencies]
rand = "=0.8.8"
actix = "=0.13.5"
diesel = { version = "=2.3.14", features = ["postgres"] }
tracing = "=0.1.44"
serde = { version = "1", features = ["derive"] }
serde_json = "1"
