[package]
name = "httpd"
version = "0.1.0"
edition = "2021"
publish = false

[dependencies]
pledge = "=0.4.2"
unveil = "=0.3.2"
nix = { version = "=0.26.4", features = ["user", "signal", "process", "fs"] }
rustls = "=0.23.45"
rustls-pemfile = "=2.2.0"
serde = { version = "=1.0.229", features = ["derive"] }
serde_cbor = "=0.11.2"
tokio = { version = "=1.53.2", features = ["full"] }
tokio-command-fds = "=0.2.1"
tokio-rustls = "=0.26.6"
tokio-seqpacket = "=0.9.1"
tokio-util = "=0.7.19"
