[package]
name = "canopy"
version = "0.1.0"
edition = "2021"
publish = false

[dependencies]
base64 = "0.22"
sha2 = "0.10"
blake3 = "1"
node-semver = "2"
syn = { version = "2", features = ["full", "parsing", "printing", "extra-traits"] }
serde = { version = "1", features = ["derive"] }
serde_json = "1"
jiff = "0.2"
uuid = { version = "1", features = ["v4", "serde"] }
typify = "*"
schemars = "0.8"
prettyplease = "0.2"
kube = { version = "*", features = ["runtime", "client"] }
k8s-openapi = { version = "*", features = ["latest"] }
tokio = { version = "1", features = ["full"] }
futures = "0.3"
clap = { version = "4", features = ["derive", "env"] }
tracing = "0.1"
