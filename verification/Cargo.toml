[package]
name = "site_core"
version = "0.1.0"
edition = "2021"
publish = false

[dependencies]
axum = "0.6"
dotenvy = "0.15"
json5 = "0.4"
reqwest = { version = "0.11", default-features = false, features = ["json"] }
serde = { version = "1", features = ["derive"] }
tokio = { version = "1", features = ["macros", "rt-multi-thread", "fs"] }
tower = "0.4"
tower-http = { version = "0.4", features = ["fs", "trace"] }
tracing = "0.1"
tracing-subscriber = { version = "0.3", features = ["env-filter"] }
