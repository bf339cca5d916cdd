[package]
name = "rs_cdr_generator"
version = "0.1.0"
edition = "2021"
publish = false

[dependencies]
anyhow = "1"
arrow = "54"
chrono = "0.4"
chrono-tz = "0.9"
clap = { version = "4", features = ["derive"] }
crossbeam-channel = "0.5"
csv = "1"
flate2 = "1"
num_cpus = "1"
rand = "0.8"
rand_distr = "0.4"
rayon = "1"
redb = "2"
serde = { version = "1", features = ["derive"] }
serde_json = "1"
serde_yaml = "0.9"
tokio = { version = "1", features = ["rt", "rt-multi-thread"] }
zstd = "0.13"

[dev-dependencies]
tempfile = "3"
