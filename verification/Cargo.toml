[package]
name = "tpower"
version = "0.1.0"
edition = "2021"
publish = false

[dependencies]
anyhow = "1"
core-foundation = "0.10"
derive_more = { version = "1", features = ["add", "deref"] }
futures = "0.3"
io-kit-sys = "0.4"
libc = "0.2"
log = "0.4"
mach = "0.3"
plist = "1"
ratatui = { version = "0.29", default-features = false }
scopefn = "*"
serde = { version = "1", features = ["derive"] }
serde_json = "1"
thiserror = "2"
tokio = { version = "1", features = ["sync", "time", "macros", "rt"] }
