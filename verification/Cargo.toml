[package]
name = "qwik_optimizer_oxc"
version = "0.1.0"
edition = "2021"
publish = false

[dependencies]
base64 = "=0.22.1"
indexmap = "2"
siphasher = "=1.0.4"
oxc = { version = "=0.143.0", features = ["codegen", "ast_visit"] }
serde = { version = "=1.0.229", features = ["derive"] }
serde_json = "=1.0.154"
