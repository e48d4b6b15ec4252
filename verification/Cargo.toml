[package]
name = "arcon_core"
version = "0.1.0"
edition = "2021"
publish = false

[dependencies]
abomonation = "0.7"
abomonation_derive = "0.5"
bytes = "1"
futures = "0.3"
metrics = "0.17"
prost = "0.9"
serde = { version = "1", features = ["derive"] }
serde_json = "1"
tokio = { version = "1", features = ["rt", "rt-multi-thread", "net"] }
