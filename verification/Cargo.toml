[package]
name = "runway"
version = "0.1.0"
edition = "2021"
publish = false

[dependencies]
anyhow = "*"
arl = "*"
blake3 = "*"
clap = { version = "*", features = ["derive", "env"] }
clap-verbosity-flag = "*"
futures = "*"
ignore = "*"
log = "*"
notify = "*"
pretty_env_logger = "*"
rbxcloud = "*"
reqwest = { version = "*", default-features = false, features = ["rustls-tls"] }
secrecy = "*"
serde = { version = "*", features = ["derive"] }
thiserror = "*"
tokio = { version = "*", features = ["macros", "rt", "signal", "sync", "time"] }
toml = "*"
unicode-ident = "*"
