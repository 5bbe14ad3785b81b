[package]
name = "pgn_to_numpy"
version = "0.1.0"
edition = "2021"
publish = false

[dependencies]
shakmaty = "=0.29.4"
pgn-reader = "=0.28.0"
clap = "*"
csv = "*"
fs-err = "*"
reqwest = { version = "*", default-features = false, features = ["blocking"] }
zstd = "*"
inquire = "*"
progress_bar = "*"

[dev-dependencies]
npyz = "*"
