[package]
name = "property_values"
version = "0.1.0"
edition = "2021"
publish = false

[dependencies]
async-trait = "0.1"
metrics = "0.22"
rdkafka = { version = "0.36", default-features = false, features = ["tokio"] }
serde = { version = "1", features = ["derive"] }
serde_json = "1"
thiserror = "1"
tokio = { version = "1", features = ["macros", "rt", "rt-multi-thread", "sync", "time"] }
tracing = "0.1"
