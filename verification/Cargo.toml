[package]
name = "bullg"
version = "0.1.0"
edition = "2021"
publish = false

[dependencies]
anyhow = "*"
base64 = "=0.23.1"
boa_engine = "=0.22.0"
bytes = "*"
clap = { version = "=4.6.7", features = ["derive"] }
fxhash = "*"
heed = "=0.22.1"
hmac = "=0.13.0"
http = "*"
http-body-util = "*"
hyper = { version = "=1.12.0", features = ["full"] }
hyper-util = { version = "=0.1.21", features = ["full"] }
md-5 = "=0.11.0"
rand = "*"
regex = "=1.13.1"
rhai = { version = "=1.26.1", features = ["serde", "no_time"] }
rmp-serde = "*"
serde = { version = "*", features = ["derive"] }
serde_json = "*"
serde_yml = "*"
sha1 = "=0.11.0"
sha2 = "=0.11.0"
tokio = { version = "*", features = ["full"] }
toml = "*"
uuid = { version = "=1.27.0", features = ["v4"] }
