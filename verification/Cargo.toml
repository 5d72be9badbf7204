[package]
name = "oo7_keyring"
version = "0.1.0"
edition = "2021"
publish = false

[dependencies]
async-trait = "0.1"
cipher = { version = "0.4", features = ["alloc", "block-padding"] }
gpgme = "0.11"
openssl = "0.10"
rand = "0.9"
serde = { version = "1", features = ["derive"] }
tokio = { version = "1", features = ["fs", "io-util", "macros", "rt", "rt-multi-thread", "sync", "time"] }
toml = "0.9"
tracing = "0.1"
zbus = { version = "5", default-features = false, features = ["tokio"] }
zeroize = "1"
zvariant = "5"
