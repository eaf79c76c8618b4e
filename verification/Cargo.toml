[package]
name = "rush_tunnel"
version = "0.1.0"
edition = "2021"
publish = false

[dependencies]
argon2 = "=0.5.3"
chacha20poly1305 = "=0.9.1"
hex = "=0.4.3"
rand_core = { version = "=0.6.4", features = ["getrandom"] }
anyhow = "=1.0.104"
dirs = "=7.0.0"
inquire = "=0.9.4"
serde = { version = "=1.0.229", features = ["derive"] }
structopt = "=0.3.26"
tokio = { version = "=1.53.2", features = ["macros", "rt-multi-thread"] }
toml = "=1.1.6"
