[package]
name = "raman_tools"
version = "0.1.0"
edition = "2021"
publish = false

[dependencies]
anyhow = "1"
argmin = "0.8"
clap = { version = "3.2", features = ["derive"] }
csv = "1"
ndarray = "0.15"
ndarray-csv = "0.5"
ndarray-stats = "0.5"
noisy_float = "0.2"
regex = "1"
serde = { version = "1", features = ["derive"] }
serde_yaml = "0.9"
splines = "4"
