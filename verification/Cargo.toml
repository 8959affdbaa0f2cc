[package]
name = "global_maps"
version = "0.1.0"
edition = "2021"
publish = false

[dependencies]
fuzzy-matcher = "=0.3.7"
gokz_rs = { version = "=0.24.3", features = ["global-api"] }
serde = { version = "=1.0.229", features = ["derive"] }
thiserror = "=2.0.21"
