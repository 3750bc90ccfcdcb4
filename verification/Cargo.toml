[package]
name = "compiler"
version = "0.1.0"
edition = "2021"
publish = false

[dependencies]
petgraph = { version = "0.6", default-features = false, features = ["graphmap"] }
serde = { version = "1", features = ["derive"] }
