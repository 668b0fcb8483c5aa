[package]
name = "rust_scholar_transformer"
version = "0.1.0"
edition = "2021"
publish = false

[dependencies]
async-trait = "0.1"
chrono = { version = "0.4", features = ["serde"] }
feed-rs = "2"
futures = "0.3"
moka = { version = "0.12", features = ["future"] }
pyo3 = { version = "0.22", features = ["abi3-py39"] }
quick-xml = { version = "0.37", features = ["serialize"] }
redb = "2"
reqwest = { version = "0.12", default-features = false, features = ["rustls-tls"] }
serde = { version = "1", features = ["derive"] }
serde_json = "1"
thiserror = "2"
tokio = { version = "1", features = ["rt-multi-thread", "macros", "time", "sync"] }
url = "2"
