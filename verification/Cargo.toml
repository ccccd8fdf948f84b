[package]
name = "vllm_bench"
version = "0.1.0"
edition = "2021"
publish = false

[dependencies]
async-stream = "0.3"
axum = "*"
clap = { version = "4", features = ["derive"] }
futures = "0.3"
reqwest = { version = "*", default-features = false, features = ["json"] }
serde = { version = "1", features = ["derive"] }
serde_json = "1"
tokio = { version = "1", features = ["macros", "rt-multi-thread", "net", "time"] }
uuid = { version = "1", features = ["v4"] }
