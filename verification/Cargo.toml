[package]
name = "lyrics"
version = "0.1.0"
edition = "2021"
publish = false

[dependencies]
serde = { version = "=1.0.229", features = ["derive"] }
toml = "=1.1.8"
serde-saphyr = "=2.0.0"
crossterm = "=0.29.0"
unicode-width = "=0.2.3"

[dev-dependencies]
pipe-trait = "*"
