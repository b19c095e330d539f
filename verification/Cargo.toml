[package]
name = "learn_rust"
version = "0.1.0"
edition = "2021"
publish = false

[dependencies]
bigdecimal = "0.4"
chrono = "0.4"
diesel = { version = "2", features = ["postgres", "chrono", "numeric"] }
dotenv = "0.15"
futures = "0.3"
inquire = { version = "*", features = ["date"] }
reqwest = { version = "0.12", features = ["json"] }
serde = { version = "1", features = ["derive"] }
serde_json = "1"
tokio = { version = "1", features = ["full"] }
