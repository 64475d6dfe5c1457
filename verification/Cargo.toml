[package]
name = "bencode2json"
version = "0.1.0"
edition = "2021"
publish = false

[dependencies]
clap = "4.5"
derive_more = { version = "1.0", features = ["display"] }
hex = "0.4"
ringbuffer = "0.15"
serde_json = "1.0"
thiserror = "1.0"
