[package]
name = "fuse_engine"
version = "0.1.0"
edition = "2021"
publish = false

[dependencies]
arrow2 = { version = "*", default-features = false, features = ["io_parquet"] }
parquet2 = { version = "*", default-features = false }
bloomfilter = "*"
xorfilter-rs = "*"
futures = "*"
opendal = { version = "*", default-features = false }
tokio = { version = "*", features = ["rt", "time"] }
serde = { version = "*", features = ["derive"] }
serde_json = "*"
tonic = { version = "*", default-features = false }
