[package]
name = "org_contacts"
version = "0.1.0"
edition = "2021"
publish = false

[dependencies]
anyhow = "1"
rand = "0.8"
reqwest = { version = "0.12", features = ["blocking"] }
scraper = "*"
