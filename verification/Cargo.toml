[package]
name = "mpudp"
version = "0.1.0"
edition = "2021"
publish = false

[dependencies]
hmac = "=0.13.0"
sha2 = "=0.11.0"
rand = "=0.10.3"
nfq = "=0.2.5"
socket2 = { version = "=0.6.5", features = ["all"] }
clap = { version = "=4.6.7", features = ["derive"] }
ctrlc = "=3.5.2"
parking_lot = "=0.12.5"
sudo = "=0.6.0"
indicatif = "=0.18.6"
