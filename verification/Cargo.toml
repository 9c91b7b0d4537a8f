[package]
name = "oma"
version = "0.1.0"
edition = "2021"
publish = false

[dependencies]
sha2 = "=0.10.9"
flate2 = "=1.1.10"
xz2 = "=0.1.7"
chrono = "=0.4.45"
reqwest = { version = "=0.12.28", default-features = false, features = ["blocking"] }
