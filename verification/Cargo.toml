[package]
name = "codex_task"
version = "0.1.0"
edition = "2021"
publish = false

[dependencies]
petgraph = "0.8"
fixedbitset = "0.5"
regex = "1"
serde = { version = "1", features = ["derive"] }
serde_json = "1"
serde_yaml = "0.9"
thiserror = "2"
tokio = { version = "1", features = ["full"] }
tokio-stream = "0.1"
futures = "0.3"
time = { version = "0.3", features = ["formatting", "std"] }
uuid = { version = "1", features = ["v4"] }
dirs = "6"
clap = { version = "4", features = ["derive"] }
crossterm = { version = "0.28", features = ["event-stream"] }
ratatui = { version = "0.29", features = ["unstable-widget-ref"] }
nix = { version = "0.30", features = ["signal", "process"] }
