[package]
name = "glance_github_graph"
version = "0.1.0"
edition = "2021"
publish = false

[dependencies]
scraper = "*"
chrono = "*"
serde = { version = "*", features = ["derive"] }
serde_json = "*"
reqwest = { version = "*", default-features = false }
tokio = { version = "*", features = ["rt", "rt-multi-thread", "macros", "time"] }
actix-web = { version = "*", default-features = false, features = ["macros"] }
log = "*"
env_logger = "*"
anyhow = "*"
lazy_static = "*"
url = "*"
