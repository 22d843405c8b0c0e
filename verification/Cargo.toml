[package]
name = "rust_md"
version = "0.1.0"
edition = "2021"
publish = false

[dependencies]
anyhow = "*"
axum = "*"
colored = "*"
notify = "*"
pulldown-cmark = "*"
serde = { version = "*", features = ["derive"] }
serde_yaml_ng = "*"
tokio = { version = "*", features = ["macros", "rt-multi-thread", "net", "sync"] }
tower-http = { version = "*", features = ["cors"] }
