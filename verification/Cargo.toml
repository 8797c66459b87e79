[package]
name = "orcid_data_toolkit"
version = "0.1.0"
edition = "2021"
publish = false

[dependencies]
regex = "*"
uuid = { version = "*", features = ["v4"] }
unicode-normalization = "*"
anyhow = "*"
chrono = "*"
clap = { version = "*", features = ["derive"] }
crossbeam-channel = "*"
csv = "*"
flate2 = "*"
rayon = "*"
tar = "*"

[dev-dependencies]
serde_json = "*"
