[package]
name = "mcp-student-records"
version = "1.2.0"
edition = "2021"
publish = false

[dependencies]
chrono = { version = "0.4", features = ["serde"] }
uuid = { version = "1", features = ["v4"] }
serde = { version = "1", features = ["derive"] }
serde_json = "1"
rmcp = { version = "*", features = ["server", "macros", "transport-io"] }
adk-mcp-sdk = "*"
async-trait = "0.1"
tokio = { version = "1", features = ["macros", "rt-multi-thread", "io-std"] }
