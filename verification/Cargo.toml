[package]
name = "quote_tables"
version = "0.1.0"
edition = "2021"
publish = false

[dependencies]
time = { version = "=0.3.55", features = ["parsing"] }
polars = { version = "=0.55.2", default-features = false, features = ["fmt", "dtype-datetime"] }
yahoo_finance_api = "=5.0.0"
axum = "=0.8.9"
http = "=1.5.0"
tokio = { version = "=1.54.1", features = ["rt-multi-thread", "macros", "net"] }
tower-http = { version = "=0.7.1", features = ["cors"] }
tracing-subscriber = "=0.3.23"
serde = { version = "=1.0.229", features = ["derive"] }
ts-rs = "*"
