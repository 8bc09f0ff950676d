[package]
name = "ctest_tracing"
version = "0.1.0"
edition = "2021"
publish = false

[dependencies]
serde_json = "1"
clio = "0.2"
structopt = "0.3"

[dev-dependencies]
nom = "7"
