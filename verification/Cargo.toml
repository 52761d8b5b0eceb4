[package]
name = "firewheel_clap_node"
version = "0.1.0"
edition = "2021"
publish = false

[dependencies]
clack-host = "=0.2.0"
clack-extensions = { version = "=0.2.0", features = ["clack-host", "audio-ports", "log", "params"] }
firewheel-core = "=0.14.0"
log = "=0.4.35"
thiserror = "=2.0.21"
