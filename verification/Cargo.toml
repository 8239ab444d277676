[package]
name = "bevy_archive"
version = "0.1.0"
edition = "2021"
publish = false

[dependencies]
arrow = "=60.0.0"
base64 = "=0.23.1"
bevy_ecs = { version = "=0.17.3", default-features = false, features = ["std"] }
bumpalo = "=3.20.3"
bytes = "=1.12.1"
csv = "=1.4.0"
parquet = { version = "=60.0.0", default-features = false, features = ["arrow"] }
rmp-serde = "=1.3.1"
serde = { version = "=1.0.229", features = ["derive"] }
serde_arrow = { version = "=0.15.1", features = ["arrow-60"] }
serde_bytes = "=0.11.19"
serde_json = "=1.0.154"
thiserror = "=2.0.21"
toml = "=1.1.8"
zip = { version = "=9.1.0", default-features = false, features = ["deflate"] }
