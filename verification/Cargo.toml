[package]
name = "llmlang"
version = "0.4.0"
edition = "2021"
publish = false

[dependencies]
sha2 = "0.10"
hex = "0.4"
serde = { version = "1", features = ["derive"] }
serde_json = "1"
inkwell = { version = "0.5", features = ["llvm18-0"] }
libc = "0.2"
tokio = { version = "1", features = ["full"] }
async-trait = "0.1"
mcp-sdk-rs = "*"
walkdir = "2"
