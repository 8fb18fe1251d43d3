[package]
name = "tender_parser"
version = "0.1.0"
edition = "2021"
publish = false

[dependencies]
scraper = "*"
chrono = { version = "0.4", features = ["serde"] }
serde = { version = "1", features = ["derive"] }
serde_json = "1"
postcard = { version = "1", features = ["alloc"] }
reqwest = { version = "0.12", default-features = false, features = ["cookies", "rustls-tls"] }
tokio = { version = "1", features = ["rt-multi-thread"] }
futures = "0.3"
lettre = { version = "0.11", default-features = false, features = ["smtp-transport", "builder", "rustls-tls", "serde", "hostname"] }
native-dialog = "0.9"
