[package]
name = "dusklapse"
version = "0.1.0"
edition = "2021"
publish = false

[dependencies]
jpeg-decoder = { version = "0.3", default-features = false }
tokio = { version = "1", features = ["net", "time", "sync", "rt", "macros", "io-util"] }
reqwest = { version = "0.12", default-features = false, features = ["json"] }
serde = { version = "1", features = ["derive"] }
serde_json = "1"
thiserror = "2"
log = "0.4"
async-trait = "0.1"
