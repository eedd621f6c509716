[package]
name = "matrix_quant"
version = "0.1.0"
edition = "2021"
publish = false
rust-version = "1.95"

[dependencies]
arc-swap = "1"
dotenvy = "0.15"
dptree = "*"
futures-util = "0.3"
hex = "=0.4.3"
hmac = "=0.13.0"
lazy_static = "1"
redis = { version = "1", features = ["tokio-comp"] }
reqwest = { version = "0.12", default-features = false, features = ["json", "rustls-tls"] }
rust_decimal = "=1.43.0"
rust_decimal_macros = "1"
serde = { version = "1", features = ["derive"] }
serde_json = "=1.0.154"
sha2 = "=0.11.1"
takecell = "=0.1.1"
teloxide = { version = "0.17", default-features = false, features = ["macros", "rustls", "ctrlc_handler"] }
time = { version = "0.3", features = ["macros", "formatting"] }
tokio = { version = "1", features = ["full"] }
tokio-tungstenite = { version = "*", features = ["rustls-tls-webpki-roots"] }
tracing = "0.1"
tracing-subscriber = { version = "0.3", features = ["env-filter", "time"] }
