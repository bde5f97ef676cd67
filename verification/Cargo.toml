[package]
name = "codemode"
version = "0.1.0"
edition = "2021"
publish = false

[dependencies]
boa_engine = "=0.21.1"
boa_gc = "=0.21.1"
clap = { version = "=4.6.7", features = ["derive"] }
futures-concurrency = "=7.7.1"
futures-lite = "=2.6.1"
futures-util = "=0.3.34"
rig-core = { version = "=0.37.0", default-features = false }
rlimit = "=0.11.0"
rmcp = { version = "=1.8.0", features = ["client", "server", "transport-child-process", "transport-io", "local"] }
serde = { version = "=1.0.229", features = ["derive"] }
serde_json = { version = "=1.0.154", features = ["preserve_order"] }
thiserror = "=2.0.21"
tokio = { version = "=1.54.1", features = ["rt", "macros", "sync", "time", "process", "io-util", "io-std"] }
toml = "=1.1.8"
