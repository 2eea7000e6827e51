[package]
name = "gemini_chat"
version = "0.1.0"
edition = "2021"
publish = false

[dependencies]
dotenv = "0.15"
hyper = { version = "0.14", features = ["client", "http1", "tcp"] }
hyper-tls = "0.5"
spinners = "*"
tokio = { version = "1", features = ["rt-multi-thread", "macros"] }
