[package]
name = "mim"
version = "0.1.0"
edition = "2021"
publish = false

[dependencies]
chrono = "*"
roxmltree = "*"
scraper = "*"
reqwest = { version = "*", default-features = false }
tokio = { version = "*", features = ["macros", "rt-multi-thread"] }
dirs = "*"
