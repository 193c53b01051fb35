[package]
name = "zenoh-plugin-template"
version = "0.1.0"
edition = "2021"
publish = false

[dependencies]
clap = { version = "4", features = ["derive"] }
futures = "0.3"
lazy_static = "1"
serde = { version = "1", features = ["derive"] }
serde_json = "1"
tokio = { version = "1", features = ["rt-multi-thread", "macros"] }
tracing = "0.1"
zenoh = { version = "*", default-features = false, features = ["plugins", "unstable", "internal"] }
zenoh-config = "*"
zenoh-plugin-rest = { version = "*", default-features = false }
zenoh-plugin-trait = "*"
