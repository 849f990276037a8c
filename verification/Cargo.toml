[package]
name = "trustworthiness_checker"
version = "0.1.0"
edition = "2021"
publish = false

[dependencies]
futures = "0.3"
smol = "2"
petgraph = "0.7"
serde = { version = "1", features = ["derive"] }
serde_json = "1"
winnow = "0.7"
