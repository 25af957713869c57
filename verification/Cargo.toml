[package]
name = "iox_core"
version = "0.1.0"
edition = "2021"
publish = false

[dependencies]
arrow = { version = "*", default-features = false }
backtrace = "0.3"
bytes = "1"
clap = { version = "3", features = ["derive", "env"] }
dotenv = "0.15"
futures = "0.3"
hashbrown = "0.12"
http = "0.2"
itertools = "0.10"
libc = "0.2"
once_cell = "1"
parking_lot = "0.12"
prost = "0.9"
serde_json = "1"
thiserror = "1"
tokio = { version = "1", features = ["rt", "rt-multi-thread", "time", "macros", "sync"] }
uuid = "0.8"
