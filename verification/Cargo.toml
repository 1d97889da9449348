[package]
name = "vector_metrics"
version = "0.1.0"
edition = "2021"
publish = false

[dependencies]
chrono = "=0.4.45"
metrics = "=0.24.6"
serde = { version = "=1.0.229", features = ["derive"] }
