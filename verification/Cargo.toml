[package]
name = "lychee_lib"
version = "0.1.0"
edition = "2021"
publish = false

[dependencies]
headers = "=0.4.2"
http = "=1.5.0"
url = "=2.5.8"
regex = "=1.13.1"
reqwest = { version = "=0.12.28", default-features = false, features = ["json"] }
tokio = { version = "=1.54.1", features = ["rt", "rt-multi-thread", "macros", "sync"] }
async-trait = "=0.1.92"
serde = { version = "=1.0.229", features = ["derive"] }
serde_json = "=1.0.154"
serde_with = "=3.24.0"
thiserror = "=2.0.21"
anyhow = "=1.0.104"
clap = "=4.6.7"
extism = { version = "=1.30.0", default-features = false }
extism-convert = "=1.30.0"
extism-pdk = "=1.4.1"
syn = "=2.0.119"
quote = "=1.0.47"
proc-macro2 = "=1.0.107"
