[package]
name = "pact_broker_cli"
version = "0.1.0"
edition = "2021"
publish = false

[dependencies]
ansi_term = "*"
clap = "*"
comfy-table = "*"
glob = "*"
log = "*"
reqwest = { version = "*", default-features = false, features = ["json"] }
serde = { version = "*", features = ["derive"] }
serde_json = "*"
simplelog = "*"
tokio = { version = "*", features = ["rt", "rt-multi-thread", "macros", "time"] }
uuid = { version = "*", features = ["v4"] }
