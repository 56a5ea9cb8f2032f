[package]
name = "postbud"
version = "0.1.0"
edition = "2021"
publish = false

[dependencies]
base64 = "=0.22.1"
flate2 = "=1.1.10"
zip = { version = "=2.6.1", default-features = false, features = ["deflate"] }
quick-xml = { version = "=0.37.5", features = ["serialize"] }
serde_json = "=1.0.154"
sha2 = "=0.10.9"
rand = "=0.8.8"
mail-parser = "=0.9.4"
serde = { version = "=1.0.229", features = ["derive"] }
anyhow = "=1.0.104"
thiserror = "=2.0.21"
chrono = { version = "=0.4.45", features = ["serde"] }
uuid = { version = "=1.29.0", features = ["v4", "serde"] }
tokio = { version = "=1.54.1", features = ["full"] }
axum = "=0.8.9"
tower-http = { version = "=0.6.11", features = ["catch-panic"] }
sqlx = { version = "=0.8.6", default-features = false, features = ["runtime-tokio", "postgres", "chrono", "uuid", "json", "migrate", "macros"] }
reqwest = { version = "=0.12.28", default-features = false, features = ["json", "rustls-tls"] }
lettre = { version = "=0.11.23", default-features = false, features = ["builder", "smtp-transport", "tokio1", "tokio1-rustls-tls"] }
jsonwebtoken = "=9.3.1"
hickory-resolver = "=0.24.4"
async-imap = { version = "=0.10.4", default-features = false, features = ["runtime-tokio"] }
tokio-rustls = "=0.26.6"
webpki-roots = "=0.26.11"
futures = "=0.3.34"
clap = { version = "=4.6.7", features = ["derive"] }
dotenvy = "=0.15.7"
include_dir = "=0.7.4"
