[package]
name = "ferrix"
version = "0.1.0"
edition = "2021"
publish = false

[dependencies]
anyhow = "*"
async-trait = "*"
axum = "*"
clap = { version = "*", features = ["derive"] }
dashmap = "*"
env_logger = "*"
futures-util = "*"
k8s-openapi = { version = "*", features = ["latest"] }
kube = { version = "*", features = ["client", "runtime", "derive"] }
log = "*"
nix = { version = "*", features = ["signal"] }
pingora = { version = "*", features = ["lb", "proxy"] }
schemars = "*"
serde = { version = "*", features = ["derive"] }
serde_yml = "*"
thiserror = "*"
tokio = { version = "*", features = ["full"] }
