[package]
name = "weather_mail"
version = "0.1.0"
edition = "2021"
publish = false

[dependencies]
pulldown-cmark = "*"
serde = { version = "*", features = ["derive"] }
serde_json = "*"
reqwest = { version = "*", default-features = false, features = ["json", "gzip", "rustls-tls"] }
tokio = { version = "*", features = ["full"] }
lettre = { version = "*", default-features = false, features = ["smtp-transport", "builder", "hostname", "pool", "tokio1", "tokio1-rustls-tls"] }
tera = "*"
chrono = "*"
dotenv = "*"
