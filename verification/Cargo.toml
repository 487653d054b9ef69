[package]
name = "thumper"
version = "0.1.0"
edition = "2021"
publish = false

[dependencies]
anyhow = "1"
chrono = "0.4"
clap = { version = "4", features = ["derive"] }
clap_complete = "4"
crossbeam = "0.8"
fxhash = "0.2"
hex = "0.4"
infer = "*"
num_cpus = "1"
reqwest = { version = "0.12", features = ["blocking", "json"] }
serde = { version = "1", features = ["derive"] }
sha2 = "0.10"
urlencoding = "2"

[dev-dependencies]
serde_json = "1"
