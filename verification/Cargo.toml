[package]
name = "wordle_word"
version = "0.1.0"
edition = "2021"
publish = false

[dependencies]
itertools = "=0.15.0"
scraper = "=0.29.0"
reqwest = { version = "=0.13.5", features = ["blocking"] }
axum = "=0.8.9"
tokio = { version = "=1.54.1", features = ["full"] }
askama = "=0.16.1"
askama_web = { version = "=0.16.0", features = ["axum-0.8"] }
serde = { version = "=1.0.229", features = ["derive"] }
uuid = { version = "=1.29.0", features = ["v4"] }
