[package]
name = "menstruation"
version = "0.1.0"
edition = "2021"
publish = false

[dependencies]
ansi_term = "0.12"
chrono = "=0.4.45"
regex = "=1.13.1"
reqwest = { version = "0.12", features = ["blocking"] }
rocket = { version = "0.5", features = ["json"] }
scraper = "=0.29.0"
serde = { version = "1", features = ["derive"] }
serde_derive = "1"
serde_json = "1"
structopt = "0.3"
