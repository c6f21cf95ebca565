[package]
name = "cargo-tarball"
version = "0.1.0"
edition = "2021"
publish = false

[dependencies]
env_logger = "=0.11.11"
exitcode = "=1.1.2"
failure = "=0.1.8"
flate2 = "=1.1.10"
globwalk = "=0.3.1"
liquid = "=0.14.3"
log = "=0.4.34"
serde = { version = "=1.0.229", features = ["derive"] }
serde_json = "=1.0.154"
serde_yaml = "=0.9.34"
stager = "=0.3.4"
structopt = "=0.3.26"
tar = "=0.4.46"
tempfile = "=3.27.0"
toml = "=1.1.8"
zip = { version = "=9.0.5", default-features = false, features = ["deflate"] }
