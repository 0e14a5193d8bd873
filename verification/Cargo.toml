[package]
name = "crate2nix"
version = "0.1.0"
edition = "2021"
publish = false

[dependencies]
serde_json = "1"
tokio = { version = "1", features = ["fs", "io-std", "io-util", "macros", "process", "rt"] }
futures = "0.3"
indicatif = "*"
num_cpus = "1"
