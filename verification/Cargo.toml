[package]
name = "ttplayer"
version = "0.2.1"
edition = "2021"
publish = false

[dependencies]
rand = "=0.8.8"
chardetng = "=0.1.17"
encoding_rs = "=0.8.44"
serde = { version = "=1.0.229", features = ["derive"] }
serde_json = "=1.0.154"
base64 = "=0.22.1"
dirs = "=5.0.1"
lofty = "=0.21.1"
zip = "=2.6.1"
anyhow = "=1.0.104"
parking_lot = "=0.12.5"
tokio = { version = "=1.54.1", features = ["rt-multi-thread", "sync", "time"] }
symphonia = { version = "=0.6.1", features = ["all"] }
rubato = "=0.15.0"
rustfft = "=6.4.1"
log = "=0.4.35"
tracing = "=0.1.44"
reqwest = { version = "=0.12.28", default-features = false, features = ["blocking"] }
xmrs = "=0.15.2"
ape-decoder = "=0.3.2"
oxideav-ac3 = "=0.0.11"
oxideav-core = "=0.1.42"
