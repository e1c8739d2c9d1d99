[package]
name = "drift_risk"
version = "0.1.0"
edition = "2021"
publish = false

[dependencies]
async-trait = "=0.1.92"
axum = { version = "=0.7.9", features = ["multipart"] }
calamine = "0.34"
chrono = { version = "=0.4.45", default-features = false, features = ["clock", "serde", "std"] }
clap = { version = "=4.6.7", features = ["derive"] }
csv = "=1.4.0"
good_lp = { version = "=1.15.3", default-features = false, features = ["clarabel"] }
nalgebra = "=0.33.3"
printpdf = { version = "=0.12.8", default-features = false }
regex = "=1.13.1"
reqwest = { version = "=0.12.28", default-features = false, features = ["blocking", "json", "rustls-tls"] }
rusqlite = { version = "=0.32.1", features = ["bundled"] }
schemars = { version = "=0.8.22", features = ["chrono"] }
serde = { version = "=1.0.229", features = ["derive"] }
serde_json = "=1.0.154"
sha2 = "=0.10.9"
thiserror = "=1.0.69"
tokio = { version = "=1.54.1", features = ["rt-multi-thread", "macros", "time", "net"] }
tracing = "=0.1.44"
tracing-subscriber = { version = "=0.3.23", features = ["json", "env-filter"] }
uuid = { version = "=1.29.0", features = ["v4"] }
