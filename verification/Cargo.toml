[package]
name = "ferridyn_memory"
version = "0.1.0"
edition = "2021"
publish = false

[dependencies]
serde = { version = "*", features = ["derive"] }
serde_json = "*"
chrono = "*"
thiserror = "*"
clap = { version = "*", features = ["derive"] }
dirs = "*"
tokio = { version = "*", features = ["full"] }
reqwest = { version = "*", default-features = false, features = ["json", "rustls-tls"] }
rmcp = "*"
schemars = "*"
