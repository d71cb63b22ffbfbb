[package]
name = "curves"
version = "0.1.0"
edition = "2021"
publish = false

[dependencies]
alloy-primitives = "=1.7.3"
bincode = "=1.3.3"
dashu = "=0.6.2"
hashbrown = { version = "=0.14.5", features = ["serde"] }
num = { version = "=0.4.3", features = ["rand"] }
rug = { version = "=1.30.0", default-features = false, features = ["integer"] }
serde = { version = "=1.0.229", features = ["derive"] }

[dev-dependencies]
rand = "=0.8.8"
