[package]
name = "zone_delta"
version = "0.1.0"
edition = "2021"
publish = false

[dependencies]
cloudflare = { version = "*", features = ["blocking"] }
serde = { version = "1", features = ["derive"] }
toml = "0.5"
