[package]
name = "vectorcxx"
version = "0.1.0"
edition = "2021"
publish = false

[dependencies]
chrono = "=0.4.45"
cxx = "=1.0.205"
futures = "=0.3.34"
rdkafka = "=0.39.0"
serde_json = "=1.0.154"
tokio = { version = "=1.54.1", features = ["rt-multi-thread"] }
tracing = "=0.1.44"
tracing-subscriber = { version = "=0.3.23", features = ["fmt"] }
vrl = { version = "=0.33.1", default-features = false, features = ["value", "path"] }
