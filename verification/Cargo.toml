[package]
name = "pulci-core"
version = "0.0.6"
edition = "2021"
publish = false

[dependencies]
anyhow = "1"
fs2 = "0.4"
libc = "0.2"
notify = "6"
pyo3 = { version = "0.22", features = ["abi3-py310"] }
serde = { version = "1", features = ["derive"] }
serde_json = "1"
sha2 = "0.10"
signal-hook = "0.3"
tokio = { version = "1", features = ["full"] }
toml = "0.8"
windows-sys = { version = "0.59", features = ["Win32_Foundation", "Win32_Security", "Win32_System_JobObjects", "Win32_System_Threading"] }
