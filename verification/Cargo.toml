[package]
name = "piston_meta"
version = "0.1.0"
edition = "2021"
publish = false

[dependencies]
bytes = "=1.12.1"
chrono = { version = "=0.4.45", features = ["serde"] }
futures-core = "=0.3.34"
reqwest = { version = "=0.12.28", default-features = false, features = ["json", "stream", "rustls-tls"] }
serde = { version = "=1.0.229", features = ["derive"] }
url = { version = "=2.5.8", features = ["serde"] }
