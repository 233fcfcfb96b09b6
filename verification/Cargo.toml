[package]
name = "plasmoid"
version = "0.1.0"
edition = "2021"
publish = false

[dependencies]
anyhow = "1"
blake3 = "1"
bytes = "1"
futures-lite = "2"
hex = "0.4"
iroh = { version = "1", default-features = false, features = ["tls-ring"] }
iroh-gossip = { version = "*", default-features = false, features = ["net"] }
iroh-mdns-address-lookup = "*"
postcard = { version = "1", default-features = false, features = ["use-std"] }
proc-macro2 = "1"
quote = "1"
serde = { version = "1", features = ["derive"] }
serde_json = "1"
syn = { version = "2", features = ["full"] }
thiserror = "2"
tokio = { version = "1", features = ["full"] }
toml = "*"
tracing = "0.1"
tracing-subscriber = { version = "0.3", features = ["env-filter"] }
