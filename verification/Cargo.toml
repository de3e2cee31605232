[package]
name = "feedme"
version = "0.1.0"
edition = "2021"
publish = false

[dependencies]
blake2 = "*"
time = { version = "*", features = ["formatting", "parsing"] }
serde = { version = "*", features = ["derive"] }
serde_json = "*"
toml = "*"
