[package]
name = "evkms_metrics_simulation"
version = "0.1.0"
edition = "2021"
publish = false

[dependencies]
rand = "0.8"
dotenv = "0.15"
lazy_static = "1"
