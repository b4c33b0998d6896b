[package]
name = "anny-rs"
version = "0.1.0"
edition = "2021"
publish = false

[dependencies]
anyhow = "1"
candle-core = "*"
clap = { version = "4", features = ["derive"] }
dirs = "*"
flate2 = "1"
image = { version = "0.25", default-features = false, features = ["png"] }
nalgebra = "*"
rand = "0.8"
rand_distr = "0.4"
reqwest = { version = "0.12", default-features = false, features = ["blocking", "rustls-tls"] }
serde = { version = "1", features = ["derive"] }
serde_json = "1"
serde_yaml = "0.9"
thiserror = "2"
zip = { version = "*", default-features = false, features = ["deflate"] }

[dev-dependencies]
approx = "0.5"
