[package]
name = "agent_mesh"
version = "0.1.0"
edition = "2021"
publish = false

[dependencies]
rig-core = "=0.31.0"
tokio = { version = "=1.54.1", features = ["macros", "rt-multi-thread", "sync", "time"] }
