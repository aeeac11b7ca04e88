[package]
name = "orb"
version = "0.1.0"
edition = "2021"
publish = false

[dependencies]
dirs = "*"
ed25519-dalek = { version = "2", features = ["rand_core"] }
get_if_addrs = "0.5"
hex = "0.4"
mdns-sd = "*"
rand_core = { version = "0.6", features = ["getrandom"] }
sysinfo = "*"
tokio = { version = "1", features = ["rt-multi-thread", "time"] }
uuid = { version = "1", features = ["v4"] }
whoami = "1"
