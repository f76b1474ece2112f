[package]
name = "starship"
version = "0.1.0"
edition = "2021"
publish = false

[dependencies]
dirs = "6"
log = "0.4"
nu-ansi-term = "0.50"
rayon = "1"
schemars = "1"
serde = { version = "1", features = ["derive"] }
toml = { version = "0.9", features = ["preserve_order"] }
