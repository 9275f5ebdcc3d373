[package]
name = "arcropolis"
version = "0.1.0"
edition = "2021"
publish = false

[dependencies]
smash-arc = { version = "=0.6.0", default-features = false, features = ["nozstd", "dir-listing"] }
hash40 = "=1.3.1"
semver = "=1.0.28"
serde = { version = "=1.0.229", features = ["derive"] }
serde_json = "=1.0.154"
toml = "=1.1.8"
bincode = "=1.3.3"
log = "=0.4.35"
owo-colors = "=4.4.0"
thiserror = "=1.0.69"
camino = "=1.2.6"
once_cell = "=1.21.4"
lazy_static = "=1.5.1"
parking_lot = "=0.13.0"
