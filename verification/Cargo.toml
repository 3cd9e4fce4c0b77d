[package]
name = "csslancer"
version = "0.1.0"
edition = "2021"
publish = false

[dependencies]
anyhow = "=1.0.104"
chrono = "=0.4.45"
ego-tree = "*"
fastrand = "2"
futures = "=0.3.34"
itertools = "=0.15.0"
log = "=0.4.35"
lsp-server = "=0.10.0"
lsp-types = "=0.97.0"
proc-macro2 = "=1.0.107"
quote = "=1.0.47"
regex = "1"
serde = { version = "=1.0.229", features = ["derive"] }
serde_json = "=1.0.154"
thiserror = "=2.0.21"
tokio = { version = "=1.54.1", features = ["full"] }
tower-lsp = "=0.20.0"
tracing = "=0.1.44"
tracing-chrome = "=0.7.2"
tracing-subscriber = "=0.3.23"
xshell = "=0.2.7"
