[package]
name = "fellm"
version = "0.1.0"
edition = "2021"
publish = false

[dependencies]
memmap2 = "0.9"
smallvec = "1"
thiserror = "2"
serde = { version = "1", features = ["derive"] }
toml = "0.8"
clap = { version = "4", features = ["derive"] }
raw-cpuid = "11"
bytemuck = "1"
tracing = "0.1"
tracing-subscriber = { version = "0.3", features = ["env-filter"] }
