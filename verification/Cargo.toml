[package]
name = "jsproject"
version = "0.1.0"
edition = "2021"
publish = false

[dependencies]
anyhow = "1"
dialoguer = "0.10"
futures = "0.3"
ignore = "0.4"
linked-hash-map = { version = "0.5", features = ["serde_impl"] }
reqwest = { version = "0.11", features = ["json"] }
serde = { version = "1", features = ["derive"] }
serde_json = { version = "1", features = ["preserve_order"] }
serde_yaml = "0.9"
structopt = "0.3"
tokio = { version = "1", features = ["macros", "rt-multi-thread"] }
