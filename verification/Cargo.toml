[package]
name = "next_api"
version = "0.1.0"
edition = "2021"
publish = false

[dependencies]
anyhow = "1"
futures = "0.3"
indexmap = "2"
serde = { version = "1", features = ["derive"] }
serde_json = { version = "1", features = ["preserve_order"] }
swc_core = { version = "*", features = ["ecma_ast", "ecma_visit"] }
