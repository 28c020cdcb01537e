[package]
name = "demiourgos"
version = "0.1.0"
edition = "2021"
publish = false

[dependencies]
base64 = "0.22"
serde = { version = "1", features = ["derive"] }
serde_json = "1"
thiserror = "2"
anyhow = "1"
tokio = { version = "1", features = ["full"] }
rmcp = { version = "*", features = ["server", "transport-io", "macros"] }
schemars = "*"
image = { version = "0.25", default-features = false, features = ["png"] }
stl_io = "*"
parry3d-f64 = "*"
libc = "0.2"
tracing = "0.1"
tracing-subscriber = { version = "0.3", features = ["env-filter"] }
