[package]
name = "bank_budget"
version = "0.1.0"
edition = "2021"
publish = false

[dependencies]
serde_json = "1"
chrono = "0.4"
actix-web = { version = "4", default-features = false }
actix-files = "0.6"
dotenv = "0.15"
reqwest = { version = "0.12", default-features = false }
