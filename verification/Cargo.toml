[package]
name = "cachelog"
version = "0.1.0"
edition = "2021"
publish = false

[dependencies]
itf = "*"
qp-trie = "=0.8.2"
scc = "=3.8.8"
serde = { version = "=1.0.229", features = ["derive"] }
serde_json = "=1.0.154"
thiserror = "=2.0.21"
tla-connect = "*"
