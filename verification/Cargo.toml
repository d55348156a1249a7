[package]
name = "dch_core"
version = "0.1.0"
edition = "2021"
publish = false

[dependencies]
mime = "=0.3.17"
url = "=2.5.8"
chrono = "=0.4.45"
serde = { version = "=1.0.229", features = ["derive"] }
serde_json = "=1.0.154"
http = "=1.5.0"
arrow = { version = "=60.1.0", default-features = false }
arrow-csv = "=60.1.0"
arrow-json = "=60.1.0"
tracing = "=0.1.44"
tracing-subscriber = { version = "=0.3.23", features = ["env-filter", "json"] }
opentelemetry = "=0.33.1"
opentelemetry_sdk = "=0.33.1"
opentelemetry-otlp = { version = "=0.33.1", default-features = false, features = ["grpc-tonic", "trace", "tls-ring"] }
tracing-opentelemetry = "=0.34.0"
tonic = "=0.14.9"
actix-web = "=4.18.1"
metrics = "=0.24.6"
metrics-exporter-prometheus = { version = "=0.18.3", default-features = false }
tower = "=0.5.3"
futures = "=0.3.34"
async-stream = "=0.3.6"
async-trait = "=0.1.92"
bytes = "=1.12.1"
tokio = { version = "=1.54.1", features = ["sync", "rt", "macros"] }
reqwest = { version = "=0.12.28", default-features = false, features = ["rustls-tls"] }
moka = { version = "=0.12.16", features = ["future"] }
opendal = { version = "=0.59.5", default-features = false, features = ["services-memory"] }
anyhow = "=1.0.104"
