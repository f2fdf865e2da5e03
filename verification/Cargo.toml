[package]
name = "quic_ingress"
version = "0.1.0"
edition = "2021"
publish = false

[dependencies]
crossbeam-channel = "=0.5.17"
log = "0.4"
pem = "=1.1.1"
quinn = "=0.10.2"
rcgen = "=0.10.0"
rustls = { version = "=0.21.12", features = ["dangerous_configuration"] }
solana-metrics = "=1.18.26"
solana-perf = "=1.18.26"
solana-sdk = "=1.18.26"
thiserror = "=1.0.69"
tokio = { version = "=1.54.1", features = ["rt-multi-thread", "net", "time"] }
x509-parser = "0.14"
