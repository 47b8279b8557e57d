[package]
name = "action_crawler"
version = "0.1.0"
edition = "2021"
publish = false

[dependencies]
ego-tree = "=0.11.0"
reqwest = { version = "*", default-features = false }
scraper = "=0.27.0"
tokio = { version = "*", features = ["macros", "rt-multi-thread"] }

[dev-dependencies]
serde_json = "*"
