[package]
name = "truncus"
version = "0.1.0"
edition = "2021"
publish = false

[dependencies]
time = { version = "=0.3.55", features = ["parsing", "formatting"] }
serde = { version = "=1.0.229", features = ["derive"] }
serde_json = "=1.0.154"
anyhow = "=1.0.104"
thiserror = "=2.0.21"
toml = "=1.2.1"
dirs = "=7.0.0"
gethostname = "=1.1.0"
clap = { version = "=4.6.7", features = ["derive"] }
tokio = { version = "=1.54.1", features = ["macros", "rt", "rt-multi-thread", "io-std"] }
reqwest = { version = "=0.13.5", features = ["json"] }
rmcp = { version = "=3.8.0", features = ["server", "transport-io", "macros"] }
schemars = "=1.2.3"
worker = { version = "=0.8.7", features = ["d1"] }
console_error_panic_hook = "=0.1.7"
