[package]
name = "fhe_engine"
version = "0.1.0"
edition = "2021"
publish = false

[dependencies]
rand = "=0.8.8"

[dev-dependencies]
concrete-commons = "=0.2.1"
concrete-npe = "=0.2.2"
