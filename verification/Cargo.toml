[package]
name = "reswarm_dispatch"
version = "0.1.0"
edition = "2021"
publish = false

[dependencies]
bollard = "*"
futures-util = "*"
tokio = { version = "*", features = ["full"] }
