[package]
name = "api_core"
version = "0.1.0"
edition = "2021"
publish = false

[dependencies]
sha1 = "=0.10.7"
sha2 = "=0.10.9"
chrono = { version = "=0.4.45", default-features = false, features = ["std", "clock"] }
indexmap = { version = "=2.14.2", features = ["serde"] }
serde = { version = "=1.0.229", features = ["derive"] }
serde_json = "=1.0.154"
axum = "=0.8.9"
tokio = { version = "=1.54.1", features = ["rt-multi-thread", "macros", "time", "net", "sync"] }
sqlx = { version = "=0.8.6", default-features = false, features = ["postgres", "runtime-tokio", "json", "macros"] }
tower-cookies = "=0.11.0"
tower = "=0.5.3"
tower-http = { version = "0.6", features = ["catch-panic", "cors", "normalize-path", "trace"] }
tracing = "=0.1.44"
colored = "*"
reqwest = { version = "0.12", default-features = false, features = ["rustls-tls"] }
