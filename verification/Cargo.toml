[package]
name = "ccometixline"
version = "0.1.0"
edition = "2021"
publish = false

[dependencies]
chrono = "*"
clap = { version = "*", features = ["derive"] }
dirs = "*"
glob = "*"
ignore = "*"
memmap2 = "*"
num_cpus = "*"
once_cell = "*"
rayon = "*"
reqwest = { version = "*", default-features = false, features = ["rustls-tls", "json"] }
serde = { version = "*", features = ["derive"] }
serde_json = "*"
tokio = { version = "*", features = ["rt-multi-thread", "time"] }
