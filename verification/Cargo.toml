[package]
name = "trex"
version = "0.1.0"
edition = "2021"
publish = false

[dependencies]
linear-map = "1"
chrono = "0.4"
fnv = "1"
lru-cache = "0.1"
owning_ref = "0.4"
ordered-float = "4"
r2d2 = "0.8"
r2d2_sqlite = "*"
rusqlite = { version = "*", features = ["bundled"] }
threadpool = "1"
num_cpus = "1"
rand = "0.8"
uuid = { version = "1", features = ["v4"] }
rustc-serialize = "0.3"
regex = "1"
clap = "4"
