[package]
name = "wf_recorder"
version = "0.1.0"
edition = "2021"
publish = false

[dependencies]
chrono = "0.4"
anyhow = "1"
serde = { version = "1", features = ["derive"] }
serde_json = "1"
dirs = "5"
which = "6"
iced = { version = "0.12", default-features = false, features = ["tokio"] }
tokio = { version = "1", features = ["time", "rt"] }
