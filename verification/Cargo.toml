[package]
name = "boomerang_federated"
version = "0.1.0"
edition = "2021"
publish = false

[dependencies]
heapless = "0.8"
serde = { version = "1", features = ["derive"] }
serde_json = "1"
thiserror = "2"
tokio = { version = "1", features = ["rt", "sync", "macros"] }
futures-util = { version = "0.3", features = ["sink"] }
