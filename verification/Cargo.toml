[package]
name = "ttpedia_backend"
version = "0.1.0"
edition = "2021"
publish = false

[dependencies]
lmdb = "=0.8.0"
tectonic_engine_spx2html = "=0.4.3"
anyhow = "=1.0.104"
axum = { version = "=0.8.9", features = ["ws"] }
clap = { version = "=4.6.7", features = ["derive"] }
faktory = "=0.13.1"
minio = "=0.3.0"
reqwest = { version = "=0.13.5", default-features = false, features = ["json"] }
samod = { version = "=0.15.0", features = ["tokio", "axum"] }
automerge = "=0.12.0"
serde = { version = "=1.0.229", features = ["derive"] }
tectonic_bridge_core = "=0.5.3"
tectonic_status_base = "=0.2.2"
tempfile = "=3.27.0"
tokio = { version = "=1.53.2", features = ["macros", "rt-multi-thread", "net", "fs", "sync", "time"] }
tower-http = { version = "=0.7.1", features = ["cors", "trace"] }
