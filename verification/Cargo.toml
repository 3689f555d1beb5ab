[package]
name = "commit_resolver"
version = "0.1.0"
edition = "2021"
publish = false

[dependencies]
axum = "*"
reqwest = { version = "*", default-features = false, features = ["json"] }
serde = { version = "*", features = ["derive"] }
serde_json = "*"
thiserror = "*"
tokio = { version = "*", features = ["rt-multi-thread", "macros", "net"] }
