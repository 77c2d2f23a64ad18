[package]
name = "docuforce"
version = "0.1.0"
edition = "2021"
publish = false

[dependencies]
sha2 = "=0.11.0"
hex = "=0.4.3"
tree-sitter = "=0.27.0"
tree-sitter-rust = "=0.24.2"
streaming-iterator = "=0.1.9"
clap = { version = "*", features = ["derive"] }
tokio = { version = "*", features = ["macros", "rt-multi-thread", "time"] }
sqlx = { version = "*", features = ["sqlite", "runtime-tokio"] }
async-openai = "=0.28.3"
futures = "*"
serde = { version = "*", features = ["derive"] }
serde_json = "*"
tracing-subscriber = { version = "*", features = ["env-filter"] }
