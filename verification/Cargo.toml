[package]
name = "proxy_gateway"
version = "0.1.0"
edition = "2021"
publish = false

[dependencies]
serde = { version = "=1.0.229", features = ["derive"] }
serde_yml = "=0.0.12"
serde_json = { version = "=1.0.154", features = ["preserve_order"] }
subtle = "=2.6.1"
x509-parser = "=0.16.0"
rustls-pemfile = "=2.2.0"
dashmap = "=6.2.1"
log = "=0.4.35"
env_logger = "=0.11.11"
tokio = { version = "=1.54.1", features = ["full"] }
axum = "=0.8.9"
tower-http = { version = "=0.6.11", features = ["fs"] }
futures = "=0.3.34"
jsonwebtoken = "=9.3.1"
prometheus = "=0.14.0"
arc-swap = "=1.9.3"
ctrlc = "=3.5.2"
async-trait = "=0.1.92"
instant-acme = "=0.8.5"
rcgen = "=0.13.2"
