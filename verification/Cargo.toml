[package]
name = "b3_wallet"
version = "0.1.0"
edition = "2021"
publish = false

[dependencies]
sha2 = "0.10"
crc32fast = "1"
ripemd = "0.1"
bs58 = "0.5"
libsecp256k1 = "0.7"
easy-hasher = "2.2.1"
