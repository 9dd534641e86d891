[package]
name = "geo_index"
version = "0.1.0"
edition = "2021"
publish = false

[dependencies]
rstar = "0.12"
osmpbfreader = "0.16"
poem = "1"
serde = { version = "1", features = ["derive"] }
serde_json = "1"
bincode = "1"
clap = { version = "4", features = ["derive", "env"] }
tokio = { version = "1", features = ["rt-multi-thread", "macros"] }
tracing-subscriber = "0.3"
log = "0.4"
