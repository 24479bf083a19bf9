[package]
name = "cipher_toy"
version = "0.1.0"
edition = "2021"
publish = false

[dependencies]
ascii = "=1.1.0"
modinverse = "=0.1.1"
rand = "=0.8.8"
rand_pcg = "=0.3.1"
rand_seeder = "=0.2.3"
tokio = { version = "1", default-features = false, features = ["rt-multi-thread", "macros"] }
configparser = "3"
linecount = "=0.1.0"
