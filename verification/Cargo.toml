[package]
name = "traffic_core"
version = "0.1.0"
edition = "2021"

[dependencies]
thiserror = "2"

[dev-dependencies]
nom = "8"
