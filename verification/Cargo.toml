[package]
name = "zed_core"
version = "0.1.0"
edition = "2021"
publish = false

[dependencies]
arrayvec = "0.7"
unicode-segmentation = "1.10"
smallvec = "1.6"
sha2 = "0.10"
hex = "0.4.3"
shellexpand = "2.1.0"
shlex = "1.3.0"
sqlformat = "0.2"
zstd = "0.11"
anyhow = "1.0"
serde = { version = "1.0", features = ["derive"] }
serde_json = "1.0"
serde_json_lenient = "0.2"
schemars = "0.8"
dirs = "4.0"
rayon = "1.8"
futures = "0.3"
parking_lot = "0.12"
async-tungstenite = "0.28"
libsqlite3-sys = { version = "0.30", features = ["bundled"] }
