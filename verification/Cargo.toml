[package]
name = "rx_store"
version = "0.1.0"
edition = "2021"
publish = false

[dependencies]
futures-channel = "=0.3.34"
futures-core = "=0.3.34"
futures-util = "=0.3.34"
parking_lot = { version = "=0.12.5", features = ["arc_lock"] }
pin-project = "=1.1.13"
serde = { version = "=1.0.229", features = ["derive"] }
slotmap = "=1.1.1"
state = "=0.6.0"
tokio = { version = "=1.54.1", features = ["rt", "rt-multi-thread", "macros"] }
tokio-util = "=0.7.20"
vec1 = "=1.12.1"
