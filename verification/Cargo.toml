[package]
name = "jbzip2"
version = "0.1.0"
edition = "2021"
publish = false

[dependencies]
bzip2 = "*"
clap = { version = "4", features = ["derive"] }
env_logger = "0.11"
log = "0.4"
simdutf8 = "0.1"
tokio = { version = "1", features = ["macros", "rt-multi-thread"] }
