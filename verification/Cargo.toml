[package]
name = "vakil"
version = "0.1.0"
edition = "2021"
publish = false

[dependencies]
rand = "=0.10.3"
xxhash-rust = { version = "=0.8.19", features = ["xxh3"] }
ada-url = "=4.0.0"
stabby = "=72.1.16"
libloading = "=0.9.0"
anyhow = "=1.0.104"
async-trait = "=0.1.92"
log = "=0.4.35"
env_logger = "=0.11.11"
clap = { version = "=4.6.7", features = ["derive"] }
tokio = { version = "=1.54.1", features = ["full"] }
serde = { version = "=1.0.229", features = ["derive"] }
toml = "=1.1.8"
bytes = "=1.12.1"
http = "=1.5.0"
pingora-core = "=0.9.1"
pingora-error = "=0.9.1"
pingora-http = "=0.9.1"
pingora-proxy = "=0.9.1"
rama = { version = "=0.2.0", default-features = false }
rama-core = "=0.2.0"
rama-tcp = "=0.2.0"
rama-udp = "=0.2.0"
