[package]
name = "plate_prep"
version = "0.1.0"
edition = "2021"
publish = false

[dependencies]
anyhow = "1"
clap = { version = "3", features = ["derive"] }
csv = "1"
image = { version = "0.24", default-features = false, features = ["png", "jpeg", "bmp"] }
indicatif = "0.17"
ndarray = { version = "0.15", features = ["serde", "rayon"] }
rayon = "1"
rmp-serde = "1"
serde = { version = "1", features = ["derive"] }
serde_json = "1"
smartstring = { version = "1", features = ["serde"] }
spinoff = "*"
tch = "*"
