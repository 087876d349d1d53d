[package]
name = "actor_framework"
version = "0.1.0"
edition = "2021"
publish = false

[dependencies]
anyhow = "1"
async-trait = "0.1"
bytes = "1"
diesel = { version = "1.4", features = ["postgres"] }
dotenv = "0.15"
fnv = "1"
futures = "0.3"
once_cell = "1"
rand = "0.8"
reqwest = { version = "0.11", default-features = false }
slab = "0.4"
tokio = { version = "1", features = ["macros", "rt-multi-thread", "time"] }
uuid = { version = "0.8", features = ["v4"] }
