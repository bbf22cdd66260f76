[package]
name = "httm"
version = "0.1.0"
edition = "2021"
publish = false

[dependencies]
rayon = "1"
proc-mounts = "0.3"
which = "4"
serde = { version = "1", features = ["derive"] }
serde_json = "1"
