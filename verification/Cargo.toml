[package]
name = "open_metrics_mt"
version = "0.1.0"
edition = "2021"
publish = false

[dependencies]
snap = "=1.1.2"
sha1 = "=0.11.0"
argh = "*"
env_logger = "*"
futures = "*"
kube = { version = "=3.1.0", features = ["derive"] }
k8s-openapi = { version = "=0.27.1", features = ["latest"] }
log = "*"
once_cell = "*"
prometheus = "*"
reqwest = { version = "*", default-features = false, features = ["json"] }
schemars = "*"
serde = { version = "*", features = ["derive"] }
serde_json = "*"
serde_yaml = "*"
tokio = { version = "*", features = ["full"] }
warp = { version = "=0.4.3", features = ["server"] }
