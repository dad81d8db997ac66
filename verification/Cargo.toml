[package]
name = "hacker_news"
version = "0.1.0"
edition = "2021"
publish = false

[dependencies]
chrono = { version = "0.4", features = ["serde"] }
serde = { version = "1", features = ["derive"] }
reqwest = { version = "0.11", features = ["json"] }
futures = "0.3"
dioxus = "0.4"
dioxus-fullstack = "0.4"
