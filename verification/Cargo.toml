[package]
name = "tag_registry"
version = "0.1.0"
edition = "2021"
publish = false

[dependencies]
serde = { version = "=1.0.229", features = ["derive"] }
serde_json = "=1.0.154"
erased-serde = "=0.4.11"
lazy_static = "=1.5.1"
once_cell = "=1.21.4"
typetag = "=0.2.23"
