[package]
name = "p2p3"
version = "0.1.0"
edition = "2021"
publish = false

[dependencies]
maidsafe_utilities = "0.10"
bincode = "0.5"
rustc-serialize = "0.3"
socket_addr = "0.1"
config_file_handler = "0.3"
git2 = { version = "0.19", default-features = false }
