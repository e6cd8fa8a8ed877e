[package]
name = "android_tether"
version = "0.1.0"
edition = "2021"
publish = false

[dependencies]
clap = { version = "4", features = ["derive"] }
ctrlc = "3"
dirs-next = "2"
dryoc = "0.7"
env_logger = "0.11"
libc = "0.2"
log = "0.4"
native-tls = "0.2"
nusb = "0.2"
serde = { version = "1", features = ["derive"] }
serde_json = "1"
thiserror = "1"
ureq = { version = "2", default-features = false, features = ["native-tls"] }
