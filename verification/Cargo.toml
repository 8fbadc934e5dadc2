[package]
name = "aggregator"
version = "0.1.0"
edition = "2021"
publish = false

[dependencies]
candid = { version = "0.10", features = ["value"] }
dashmap = "5"
ic-certified-map = "0.4"
num-bigint = "0.4"
num-integer = "0.1"
num-traits = "0.2"
serde = { version = "1", features = ["derive"] }
serde_bytes = "0.11"
serde_cbor = "0.11"
serde_json = "1"
sha2 = "0.10"
async-trait = "0.1"
futures = "0.3"
ic-agent = "0.34"
ic-cdk = "0.13"
ic-cdk-macros = "0.13"
ic-cdk-timers = "0.7"
notify = "6"
once_cell = "1"
tokio = { version = "1", features = ["full"] }
toml = "0.8"
tracing = "0.1"
tracing-subscriber = "0.3"
