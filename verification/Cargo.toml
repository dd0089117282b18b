[package]
name = "dts_graph"
version = "0.1.0"
edition = "2021"
publish = false

[dependencies]
crc32fast = "*"
config = "*"
console = "*"
dialoguer = "*"
tokio = { version = "*", features = ["rt-multi-thread", "macros", "time"] }
