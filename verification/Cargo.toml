[package]
name = "physical_gc"
version = "0.1.0"
edition = "2021"
publish = false

[dependencies]
anyhow = "1.0"
clap = { version = "4.0", features = ["derive"] }
futures = "0.3"
futures-util = "0.3"
humantime = "2.1"
itertools = "0.10"
serde = { version = "1.0", features = ["derive"] }
tracing = "0.1"
