[package]
name = "embed_anything"
version = "0.1.0"
edition = "2021"
publish = false

[dependencies]
anyhow = "=1.0.104"
candle-core = "=0.8.4"
candle-nn = "=0.8.4"
futures = "=0.3.34"
hf-hub = "=0.3.2"
ndarray = "=0.16.1"
num_cpus = "=1.17.0"
ort = { version = "=2.0.0-rc.9", default-features = false, features = ["ndarray", "load-dynamic"] }
ort-sys = { version = "=2.0.0-rc.9", default-features = false, features = ["load-dynamic"] }
pyo3 = "=0.23.5"
rayon = "=1.12.0"
serde = { version = "=1.0.229", features = ["derive"] }
serde_json = "=1.0.154"
tokenizers = "=0.21.4"
tokio = { version = "=1.54.1", features = ["rt-multi-thread"] }
