[package]
name = "slot_watch"
version = "0.1.0"
edition = "2021"
publish = false

[dependencies]
chrono = "=0.4.45"
serde = { version = "=1.0.229", features = ["derive"] }
toml = "=0.8.23"
tokio = { version = "=1.53.2", features = ["macros", "rt-multi-thread", "time"] }
serenity = "=0.12.5"
headless_chrome = "=0.9.0"
