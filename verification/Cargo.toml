[package]
name = "downpour"
version = "0.1.0"
edition = "2021"
publish = false

[dependencies]
anyhow = "=1.0.104"
async-trait = "=0.1.92"
base64 = "*"
blake3 = "=1.8.7"
clap = { version = "=4.6.7", features = ["derive"] }
directories = "=6.0.0"
getrandom = "=0.2.17"
httpdate = "=1.0.3"
interprocess = { version = "=2.4.7", features = ["tokio"] }
reqwest = { version = "=0.12.28", default-features = false, features = ["http2", "rustls-tls", "stream"] }
serde = { version = "=1.0.229", features = ["derive"] }
serde_json = "=1.0.154"
sha2 = "*"
thiserror = "=2.0.21"
tokio = { version = "=1.54.1", features = ["full"] }
tracing = "=0.1.44"
tracing-subscriber = { version = "=0.3.23", features = ["env-filter"] }
url = "=2.5.8"
widestring = "*"
windows-sys = { version = "*", features = ["Win32_Foundation", "Win32_Security", "Win32_Security_Authorization", "Win32_Storage_FileSystem", "Win32_System_Threading"] }
