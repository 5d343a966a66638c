[package]
name = "cube_core"
version = "0.1.0"
edition = "2021"
publish = false

[dependencies]
kewb = "*"
serde = { version = "1", features = ["derive"] }
serde_json = "1"
miniz_oxide = "*"
log = "0.4"
