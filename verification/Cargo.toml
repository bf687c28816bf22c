[package]
name = "walpurgis"
version = "0.1.0"
edition = "2021"
publish = false

[dependencies]
chrono = "0.4"
config = "0.10"
fern = { version = "0.6", features = ["colored"] }
ggez = "0.5"
log = "0.4"
ron = "0.6"
serde = { version = "1", features = ["derive"] }
