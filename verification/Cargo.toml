[package]
name = "tagsfs"
version = "0.1.0"
edition = "2021"
publish = false

[dependencies]
anyhow = "1"
clap = { version = "3.2", features = ["derive"] }
fuser = { version = "0.11", default-features = false }
itertools = "0.10"
libc = "0.2"
log = "0.4"
rusqlite = { version = "0.28", features = ["bundled"] }
stderrlog = "0.5"
thiserror = "1"
