[package]
name = "cdsym"
version = "0.1.0"
edition = "2021"
publish = false

[dependencies]
pdb = "*"
symbolic-common = "*"
symbolic-demangle = { version = "*", default-features = false, features = ["cpp", "msvc", "rust"] }
zstd = "*"
serde = { version = "*", features = ["derive"] }
serde_json = "*"
serde_yaml = "*"
clap = { version = "*", features = ["derive", "env"] }
log = "*"
env_logger = "*"
reqwest = { version = "*", default-features = false, features = ["blocking"] }
