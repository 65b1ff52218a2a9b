[package]
name = "dynisland"
version = "0.1.0"
edition = "2021"
publish = false

[dependencies]
grass = "*"
tokio = { version = "*", features = ["rt", "sync", "time"] }
notify = "*"
ron = "*"
serde = { version = "*", features = ["derive"] }
log = "*"
