[package]
name = "cfx_rt"
version = "0.1.0"
edition = "2021"
publish = false

[dependencies]
joaat = "=0.1.0"
convert_case = "=0.12.0"
serde = { version = "=1.0.229", features = ["derive"] }
rmp-serde = "=1.3.1"
serde_bytes = "=0.11.19"
full_moon = "=3.0.0"
itertools = "*"

[dev-dependencies]
rmp = "=0.8.15"
