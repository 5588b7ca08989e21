[package]
name = "csdl_edm"
version = "0.1.0"
edition = "2021"
publish = false

[dependencies]
quick-xml = "0.37"
serde = { version = "1", features = ["derive"] }
serde_json = { version = "1", features = ["preserve_order"] }
thiserror = "2"
