[package]
name = "aube"
version = "0.1.0"
edition = "2021"
publish = false

[dependencies]
base64 = "=0.22.1"
bytes = "=1.12.1"
clap = { version = "=4.6.7", features = ["derive"] }
hex = "=0.4.3"
miette = "=7.6.0"
node-semver = "=2.2.0"
pathdiff = "=0.2.3"
pluralizer = "=0.6.0"
reqwest = { version = "=0.12.28", default-features = false }
serde = { version = "=1.0.229", features = ["derive"] }
serde_json = { version = "=1.0.154", features = ["preserve_order"] }
tokio = { version = "=1.54.1", features = ["process", "rt", "time"] }
tracing = "=0.1.44"
xx = { version = "=2.6.3", features = ["fslock"] }
yaml_serde = "=0.10.7"
