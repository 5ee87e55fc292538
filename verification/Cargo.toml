[package]
name = "spa_pq"
version = "0.1.0"
edition = "2021"
publish = false

[dependencies]
anyhow = "*"
base64 = "*"
clap = { version = "*", features = ["derive"] }
getrandom = "*"
hmac = "*"
pqcrypto-mlkem = "*"
pqcrypto-traits = "*"
serde = { version = "*", features = ["derive"] }
serde_json = "*"
sha2 = "*"
