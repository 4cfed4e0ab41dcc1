[package]
name = "libabbs"
version = "0.1.0"
edition = "2021"
publish = false

[dependencies]
regex = "1"
anyhow = "1"
async-trait = "0.1"
clap = { version = "4", features = ["derive", "env"] }
console = "0.15"
log = "0.4"
tokio = { version = "1", features = ["rt-multi-thread", "macros", "sync"] }
rayon = "1"
opendal = { version = "*", default-features = false, features = ["services-github", "services-memory"] }
reqwest = { version = "0.12", default-features = false, features = ["json"] }
serde = { version = "1", features = ["derive"] }
serde_json = "1"
toml = "*"
tar = "0.4"
tempfile = "3"
flate2 = "1"
xz2 = "0.1"
zstd = "*"
bzip2 = "*"
bytes = "1"
futures = "0.3"
parking_lot = "0.12"
oma-contents = "*"
