[package]
name = "smolbotbot"
version = "0.1.0"
edition = "2021"
publish = false

[dependencies]
regex = "=1.13.1"
unidecode = "=0.3.0"
anyhow = "1"
chrono = "0.4"
clap = { version = "3", features = ["derive"] }
dotenv = "0.15"
governor = "*"
image = { version = "0.24", default-features = false, features = ["png", "jpeg"] }
nonzero_ext = "*"
rand = "0.8"
reqwest = { version = "0.11", default-features = false }
serde = { version = "1", features = ["derive"] }
serde_json = "1"
serde_yaml = "0.8"
sqlx = { version = "0.6", default-features = false, features = ["runtime-tokio-rustls", "postgres", "chrono", "macros"] }
tokio = { version = "1", features = ["rt-multi-thread", "macros", "fs", "io-util", "io-std", "sync", "time"] }
url = "2"
