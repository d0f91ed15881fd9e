[package]
name = "role_keeper"
version = "0.1.0"
edition = "2021"
publish = false

[dependencies]
rusqlite = { version = "*", features = ["bundled"] }
serde = { version = "1", features = ["derive"] }
serde_json = "1"
serenity = "0.12"
tokio = { version = "1", features = ["macros", "rt-multi-thread"] }
weak-table = "0.3"
