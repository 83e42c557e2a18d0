[package]
name = "nyrun"
version = "0.1.0"
edition = "2021"
publish = false

[dependencies]
async-trait = "0.1"
bytes = "1"
chrono = { version = "=0.4.45", default-features = false, features = ["std", "now", "serde"] }
clap = { version = "4", features = ["derive"] }
flate2 = "1"
futures-util = { version = "0.3", default-features = false, features = ["sink"] }
http = "1"
instant-acme = { version = "0.7", default-features = false, features = ["hyper-rustls", "ring"] }
landlock = "0.4"
mimalloc = { version = "0.1", default-features = false }
moka = { version = "0.12", default-features = false, features = ["future"] }
nix = "0.29"
oci-distribution = { version = "=0.11.0", default-features = false, features = ["rustls-tls"] }
openssl = "=0.10.82"
prometheus-client = "0.23"
rcgen = { version = "=0.13.2", default-features = false, features = ["crypto", "pem", "ring"] }
seccompiler = "=0.5.0"
serde = { version = "1", features = ["derive"] }
serde_json = "=1.0.154"
shlex = "=1.3.0"
slatedb = { version = "0.11", default-features = false }
sysinfo = { version = "0.33", default-features = false, features = ["system"] }
tar = { version = "0.4", default-features = false }
tokio = { version = "1", features = ["full"] }
tokio-tungstenite = { version = "0.26", default-features = false, features = ["connect", "rustls-tls-webpki-roots"] }
tracing = "0.1"
tracing-subscriber = { version = "0.3", default-features = false, features = ["fmt", "env-filter"] }
zip = { version = "2", default-features = false, features = ["deflate"] }
