[package]
name = "grimoire"
version = "0.1.0"
edition = "2021"
publish = false

[dependencies]
clap = "=4.6.7"
libafl = "=0.13.2"
libafl_bolts = "=0.13.2"
libafl_targets = { version = "=0.13.2", features = ["sancov_pcguard_hitcounts", "sancov_cmplog", "libfuzzer"] }
mimalloc = { version = "=0.1.52", default-features = false }
nix = { version = "=0.29.0", features = ["fs", "process", "signal"] }
serde = { version = "=1.0.229", features = ["derive"] }
