[package]
name = "todo_api"
version = "0.1.0"
edition = "2021"
publish = false

[dependencies]
serde = { version = "1", features = ["derive"] }
serde_derive = "1"
serde_json = "1"
serde_urlencoded = "0.7"
tokio = { version = "1", features = ["macros", "rt-multi-thread", "sync", "time"] }
warp = { version = "0.3", default-features = false }
