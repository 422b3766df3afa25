[package]
name = "steel_registry"
version = "0.1.0"
edition = "2021"
publish = false

[dependencies]
rustc-hash = "*"
simdnbt = "*"
serde = { version = "*", features = ["derive"] }
serde_json = "*"
log = "*"
text_components = "*"
